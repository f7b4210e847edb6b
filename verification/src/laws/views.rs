//! What the values of the library stand for, field by field.

use vstd::prelude::*;

use crate::animation::{animation_outcome, animations_outcome};
use crate::binding::{bind_data_outcome, bind_data_set_outcome};
use crate::document::{element_outcome, list_outcome, texts_outcome, ColladaDocument, Malformed};
use crate::element::{attribute_map, element_views, optional_element, optional_str, optional_text};
use crate::element::{ElementView, NodeView, XmlElement, XmlNode};
use crate::mesh::{obj_set_outcome, object_outcome, objects_outcome};
use crate::obj::{geometry_views, joint_weights_views, object_views};
use crate::obj::{Geometry, JointWeights, ObjSet, Object};
use crate::skeleton::{depths, skeleton_outcome, skeletons_outcome};
use crate::skin::{animation_views, bind_data_views, joint_views, skeleton_views};
use crate::skin::{Animation, BindData, BindDataSet, Joint, Skeleton};
use crate::text::texts;

verus! {

/// An optional text stands for its characters.
pub proof fn law_optional_values(s: String, t: &str, e: &XmlElement)
    ensures
        optional_text(Some(s)) == Some(s@),
        optional_text(None) is None,
        optional_str(Some(t)) == Some(t@),
        optional_str(None) is None,
        optional_element(Some(e)) == Some(e@),
        optional_element(None) is None,
{
}

/// An element stands for its name, its namespace, its attributes, and its child
/// nodes one by one, each of its own sort.
pub proof fn law_elements_field_by_field(e: XmlElement, i: int)
    requires
        0 <= i < e.children@.len(),
    ensures
        e@.name == e.name@,
        e@.ns == optional_text(e.ns),
        e@.attributes == attribute_map(e.attributes@),
        e@.children.len() == e.children@.len(),
        e@.children[i] == (match e.children@[i] {
            XmlNode::Element(c) => NodeView::Element(c@),
            XmlNode::Characters(s) => NodeView::Characters(s@),
            XmlNode::CData(s) => NodeView::CData(s@),
            XmlNode::Comment(s) => NodeView::Comment(s@),
            XmlNode::ProcessingInstruction(s) => NodeView::ProcessingInstruction(s@),
        }),
{
}

/// An element without child nodes stands for one without, too.
pub proof fn law_empty_elements(e: XmlElement)
    requires
        e.children@.len() == 0,
    ensures
        e@.name == e.name@,
        e@.ns == optional_text(e.ns),
        e@.attributes == attribute_map(e.attributes@),
        e@.children.len() == 0,
{
}

/// A document stands for the tree of its root and for its numerals.
pub proof fn law_documents_field_by_field(d: ColladaDocument)
    ensures
        d@.root == d.root_element@,
        d@.numerals == d.numerals@,
{
}

/// A joint stands for its name, its parent and the cells of its inverse bind pose,
/// row by row.
pub proof fn law_joints_field_by_field(j: Joint, r: int, c: int)
    requires
        0 <= r < 4,
        0 <= c < 4,
    ensures
        j@.name == j.name@,
        j@.parent_index == j.parent_index,
        j@.inverse_bind_pose.len() == 16,
        j@.inverse_bind_pose[4 * r + c] == j.inverse_bind_pose@[r]@[c],
{
}

/// A skeleton stands for its joints and for the cells of their poses, in order.
pub proof fn law_skeletons_field_by_field(s: Skeleton, i: int, r: int, c: int)
    requires
        0 <= r < 4,
        0 <= c < 4,
    ensures
        s@.joints.len() == s.joints@.len(),
        0 <= i < s.joints@.len() ==> s@.joints[i] == s.joints@[i]@,
        s@.bind_poses.len() == s.bind_poses@.len(),
        0 <= i < s.bind_poses@.len() ==> s@.bind_poses[i].len() == 16 && s@.bind_poses[i][4 * r + c]
            == s.bind_poses@[i]@[r]@[c],
{
}

/// Bind data stands for its names, its weights, its influences, and the cells of
/// its poses, in order.
pub proof fn law_bind_data_field_by_field(d: BindData, i: int, r: int, c: int)
    requires
        0 <= r < 4,
        0 <= c < 4,
    ensures
        d@.object_name == d.object_name@,
        d@.skeleton_name == d.skeleton_name@,
        d@.joint_names.len() == d.joint_names@.len(),
        0 <= i < d.joint_names@.len() ==> d@.joint_names[i] == d.joint_names@[i]@,
        d@.weights == d.weights@,
        d@.vertex_weights == d.vertex_weights@,
        d@.inverse_bind_poses.len() == d.inverse_bind_poses@.len(),
        0 <= i < d.inverse_bind_poses@.len() ==> d@.inverse_bind_poses[i].len() == 16
            && d@.inverse_bind_poses[i][4 * r + c] == d.inverse_bind_poses@[i]@[r]@[c],
{
}

/// A set of bind data stands for its entries, in order.
pub proof fn law_bind_data_sets_one_by_one(set: BindDataSet)
    ensures
        set@.len() == set.bind_data@.len(),
        forall|i: int| 0 <= i < set.bind_data@.len() ==> #[trigger] set@[i] == set.bind_data@[i]@,
{
}

/// An animation stands for its target, its times, and the cells of its poses, in
/// order.
pub proof fn law_animations_field_by_field(a: Animation, i: int, r: int, c: int)
    requires
        0 <= r < 4,
        0 <= c < 4,
    ensures
        a@.target == a.target@,
        a@.sample_times == a.sample_times@,
        a@.sample_poses.len() == a.sample_poses@.len(),
        0 <= i < a.sample_poses@.len() ==> a@.sample_poses[i].len() == 16 && a@.sample_poses[i][4 * r
            + c] == a.sample_poses@[i]@[r]@[c],
{
}

/// Joint weights stand for their joints and weights, geometry for its material,
/// its group and its shapes.
pub proof fn law_weights_and_geometry_field_by_field(w: JointWeights, g: Geometry)
    ensures
        w@.joints == w.joints@,
        w@.weights == w.weights@,
        g@.material_name == optional_text(g.material_name),
        g@.smooth_shading_group == g.smooth_shading_group,
        g@.shapes == g.shapes@,
{
}

/// A mesh stands for its name, its points and directions, and its joint weights
/// and geometry one by one.
pub proof fn law_meshes_field_by_field(o: Object, i: int)
    ensures
        o@.name == o.name@,
        o@.vertices == o.vertices@,
        o@.tex_vertices == o.tex_vertices@,
        o@.normals == o.normals@,
        o@.joint_weights.len() == o.joint_weights@.len(),
        0 <= i < o.joint_weights@.len() ==> o@.joint_weights[i] == o.joint_weights@[i]@,
        o@.geometry.len() == o.geometry@.len(),
        0 <= i < o.geometry@.len() ==> o@.geometry[i] == o.geometry@[i]@,
{
}

/// A set of meshes stands for its library of materials and its meshes, in order.
pub proof fn law_mesh_sets_field_by_field(set: ObjSet, i: int)
    ensures
        set@.material_library == optional_text(set.material_library),
        set@.objects.len() == set.objects@.len(),
        0 <= i < set.objects@.len() ==> set@.objects[i] == set.objects@[i]@,
{
}

/// Lists stand for what each of their entries stands for, in order.
pub proof fn law_lists_one_by_one(
    strings: Seq<String>,
    elements: Seq<&XmlElement>,
    joints: Seq<Joint>,
    skeletons: Seq<Skeleton>,
    data: Seq<BindData>,
    animations: Seq<Animation>,
    i: int,
)
    ensures
        texts(strings).len() == strings.len(),
        0 <= i < strings.len() ==> texts(strings)[i] == strings[i]@,
        element_views(elements).len() == elements.len(),
        0 <= i < elements.len() ==> element_views(elements)[i] == elements[i]@,
        joint_views(joints).len() == joints.len(),
        0 <= i < joints.len() ==> joint_views(joints)[i] == joints[i]@,
        skeleton_views(skeletons).len() == skeletons.len(),
        0 <= i < skeletons.len() ==> skeleton_views(skeletons)[i] == skeletons[i]@,
        bind_data_views(data).len() == data.len(),
        0 <= i < data.len() ==> bind_data_views(data)[i] == data[i]@,
        animation_views(animations).len() == animations.len(),
        0 <= i < animations.len() ==> animation_views(animations)[i] == animations[i]@,
{
}

/// Lists of parts of meshes stand for what each of their entries stands for, in
/// order.
pub proof fn law_mesh_lists_one_by_one(
    weights: Seq<JointWeights>,
    geometry: Seq<Geometry>,
    objects: Seq<Object>,
    i: int,
)
    ensures
        joint_weights_views(weights).len() == weights.len(),
        0 <= i < weights.len() ==> joint_weights_views(weights)[i] == weights[i]@,
        geometry_views(geometry).len() == geometry.len(),
        0 <= i < geometry.len() ==> geometry_views(geometry)[i] == geometry[i]@,
        object_views(objects).len() == objects.len(),
        0 <= i < objects.len() ==> object_views(objects)[i] == objects[i]@,
{
}

/// The depths of a walk are those of its elements, in order.
pub proof fn law_depths_one_by_one(all: Seq<(ElementView, nat)>, i: int)
    ensures
        depths(all).len() == all.len(),
        0 <= i < all.len() ==> depths(all)[i] == all[i].1,
{
}

/// An outcome of looking something up stands for the same outcome: what was found
/// stands for what it is, nothing for nothing, and malformed for malformed.
pub proof fn law_outcomes_of_lookups<T>(list: Vec<T>, strings: Vec<String>, e: &XmlElement, m: Malformed)
    ensures
        list_outcome(Ok(Some(list))) == Ok::<_, Malformed>(Some(list@)),
        list_outcome::<T>(Ok(None)) == Ok::<Option<Seq<T>>, Malformed>(None),
        list_outcome::<T>(Err(m)) is Err,
        texts_outcome(Ok(Some(strings))) == Ok::<_, Malformed>(Some(texts(strings@))),
        texts_outcome(Ok(None)) == Ok::<Option<Seq<Seq<char>>>, Malformed>(None),
        texts_outcome(Err(m)) is Err,
        element_outcome(Ok(Some(e))) == Ok::<_, Malformed>(Some(e@)),
        element_outcome(Ok(None)) == Ok::<Option<ElementView>, Malformed>(None),
        element_outcome(Err(m)) is Err,
{
}

/// An outcome of reading one thing stands for the same outcome.
pub proof fn law_outcomes_of_one(s: Skeleton, d: BindData, a: Animation, o: Object, m: Malformed)
    ensures
        skeleton_outcome(Ok(Some(s))) == Ok::<_, Malformed>(Some(s@)),
        skeleton_outcome(Ok(None)) is Ok && skeleton_outcome(Ok(None))->Ok_0 is None,
        skeleton_outcome(Err(m)) is Err,
        bind_data_outcome(Ok(Some(d))) == Ok::<_, Malformed>(Some(d@)),
        bind_data_outcome(Ok(None)) is Ok && bind_data_outcome(Ok(None))->Ok_0 is None,
        bind_data_outcome(Err(m)) is Err,
        animation_outcome(Ok(Some(a))) == Ok::<_, Malformed>(Some(a@)),
        animation_outcome(Ok(None)) is Ok && animation_outcome(Ok(None))->Ok_0 is None,
        animation_outcome(Err(m)) is Err,
        object_outcome(Ok(Some(o))) == Ok::<_, Malformed>(Some(o@)),
        object_outcome(Ok(None)) is Ok && object_outcome(Ok(None))->Ok_0 is None,
        object_outcome(Err(m)) is Err,
{
}

/// An outcome of reading all there is stands for the same outcome.
pub proof fn law_outcomes_of_all(
    skeletons: Vec<Skeleton>,
    data: BindDataSet,
    animations: Vec<Animation>,
    objects: Vec<Object>,
    set: ObjSet,
    m: Malformed,
)
    ensures
        skeletons_outcome(Ok(Some(skeletons))) == Ok::<_, Malformed>(Some(skeleton_views(skeletons@))),
        skeletons_outcome(Ok(None)) is Ok && skeletons_outcome(Ok(None))->Ok_0 is None,
        skeletons_outcome(Err(m)) is Err,
        bind_data_set_outcome(Ok(Some(data))) == Ok::<_, Malformed>(Some(data@)),
        bind_data_set_outcome(Ok(None)) is Ok && bind_data_set_outcome(Ok(None))->Ok_0 is None,
        bind_data_set_outcome(Err(m)) is Err,
        animations_outcome(Ok(Some(animations))) == Ok::<_, Malformed>(
            Some(animation_views(animations@)),
        ),
        animations_outcome(Ok(None)) is Ok && animations_outcome(Ok(None))->Ok_0 is None,
        animations_outcome(Err(m)) is Err,
        objects_outcome(Ok(Some(objects))) == Ok::<_, Malformed>(Some(object_views(objects@))),
        objects_outcome(Ok(None)) is Ok && objects_outcome(Ok(None))->Ok_0 is None,
        objects_outcome(Err(m)) is Err,
        obj_set_outcome(Ok(Some(set))) == Ok::<_, Malformed>(Some(set@)),
        obj_set_outcome(Ok(None)) is Ok && obj_set_outcome(Ok(None))->Ok_0 is None,
        obj_set_outcome(Err(m)) is Err,
{
}

} // verus!
