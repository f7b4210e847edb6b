//! What meshes are read from.

use vstd::prelude::*;

use crate::document::{DocumentView, Malformed};
use crate::element::ElementView;
use crate::laws::influences::{counting, law_slots_hold_the_first_influences, lemma_free_slot_of};
use crate::laws::libraries::{is_found, is_missing, lemma_joint_weights_len};
use crate::laws::lookup::{is_first_for, law_first_bind_data_is_found};
use crate::mesh::{joint_names, joint_weights, normals, tex_vertices, vertices};
use crate::number::Number;
use crate::obj::{ObjectView, Shape};
use crate::skin::{BindDataView, JointView, SkeletonView, VertexWeight};
use crate::text::first_place;

verus! {

/// Coordinates make as many points as they have threes, and point `i` has the
/// coordinates `3 i`, `3 i + 1` and `3 i + 2`, in this order; the same holds of
/// directions.
pub proof fn law_points_of_three_coordinates(numbers: Seq<Number>, i: int)
    requires
        0 <= i < numbers.len() / 3,
    ensures
        vertices(numbers).len() == numbers.len() / 3,
        vertices(numbers)[i].x == numbers[3 * i],
        vertices(numbers)[i].y == numbers[3 * i + 1],
        vertices(numbers)[i].z == numbers[3 * i + 2],
        normals(numbers).len() == numbers.len() / 3,
        normals(numbers)[i].x == numbers[3 * i],
        normals(numbers)[i].y == numbers[3 * i + 1],
        normals(numbers)[i].z == numbers[3 * i + 2],
{
}

/// Coordinates make as many texture points as they have twos, and point `i` has
/// the coordinates `2 i` and `2 i + 1`, in this order.
pub proof fn law_points_of_two_coordinates(numbers: Seq<Number>, i: int)
    requires
        0 <= i < numbers.len() / 2,
    ensures
        tex_vertices(numbers).len() == numbers.len() / 2,
        tex_vertices(numbers)[i].x == numbers[2 * i],
        tex_vertices(numbers)[i].y == numbers[2 * i + 1],
{
}

/// No coordinates make no points.
pub proof fn law_no_points_of_no_coordinates(numbers: Seq<Number>)
    requires
        numbers.len() == 0,
    ensures
        vertices(numbers).len() == 0,
        normals(numbers).len() == 0,
        tex_vertices(numbers).len() == 0,
{
}

/// Whether an influence cannot be handed out after the given ones: it names a
/// joint or a vertex that is not there or, where the skeleton has its joint and
/// its vertex has a slot left, a weight that is not there.
pub open spec fn is_stray(
    count: nat,
    before: Seq<VertexWeight>,
    influence: VertexWeight,
    data: BindDataView,
    joints: Seq<JointView>,
) -> bool {
    ||| influence.joint >= data.joint_names.len()
    ||| influence.vertex >= count
    ||| influence.weight >= data.weights.len() && counting(
        before,
        data,
        joints,
        influence.vertex as int,
    ).len() < 4 && first_place(joint_names(joints), data.joint_names[influence.joint as int])
        < joints.len()
}

/// Influences cannot be handed out exactly when one of them is stray.
pub proof fn law_malformed_joint_weights(
    count: nat,
    list: Seq<VertexWeight>,
    data: BindDataView,
    joints: Seq<JointView>,
)
    requires
        joints.len() <= usize::MAX,
    ensures
        joint_weights(count, list, data, joints) is Err <==> exists|i: int|
            0 <= i < list.len() && is_stray(count, list.take(i), #[trigger] list[i], data, joints),
    decreases list.len(),
{
    if list.len() > 0 {
        let shorter = list.drop_last();
        let n = shorter.len() as int;
        law_malformed_joint_weights(count, shorter, data, joints);
        assert(list.take(n) =~= shorter);
        assert forall|i: int| 0 <= i < n implies #[trigger] shorter.take(i) == list.take(i) by {
            assert(shorter.take(i) =~= list.take(i));
        }
        if joint_weights(count, shorter, data, joints) is Err {
            let i = choose|i: int|
                0 <= i < shorter.len() && is_stray(
                    count,
                    shorter.take(i),
                    #[trigger] shorter[i],
                    data,
                    joints,
                );
            assert(shorter.take(i) == list.take(i));
            assert(is_stray(count, list.take(i), list[i], data, joints));
        } else {
            lemma_joint_weights_len(count, shorter, data, joints);
            let x = list[n];
            if x.vertex < count {
                lemma_free_slot_of(count, shorter, data, joints, x.vertex as int);
            }
            if joint_weights(count, list, data, joints) is Err {
                assert(is_stray(count, list.take(n), list[n], data, joints));
            }
            if exists|i: int|
                0 <= i < list.len() && is_stray(count, list.take(i), #[trigger] list[i], data, joints) {
                let i = choose|i: int|
                    0 <= i < list.len() && is_stray(
                        count,
                        list.take(i),
                        #[trigger] list[i],
                        data,
                        joints,
                    );
                if i < n {
                    assert(shorter.take(i) == list.take(i));
                    assert(is_stray(count, shorter.take(i), shorter[i], data, joints));
                }
            }
        }
    }
}

/// One influence more changes nothing but one slot of its vertex, the first that
/// no influence which counts has taken; that slot gets the place of the joint in
/// the skeleton and the weight. Nothing changes where there is no such slot or
/// the skeleton does not have the joint.
pub proof fn law_one_influence_more(
    count: nat,
    list: Seq<VertexWeight>,
    influence: VertexWeight,
    data: BindDataView,
    joints: Seq<JointView>,
    vertex: int,
    s: int,
)
    requires
        joints.len() <= usize::MAX,
        joint_weights(count, list, data, joints) is Ok,
        joint_weights(count, list.push(influence), data, joints) is Ok,
        0 <= vertex < count,
        0 <= s < 4,
    ensures
        ({
            let before = joint_weights(count, list, data, joints)->Ok_0[vertex];
            let after = joint_weights(count, list.push(influence), data, joints)->Ok_0[vertex];
            let joint = first_place(
                joint_names(joints),
                data.joint_names[influence.joint as int],
            );
            if influence.vertex == vertex && joint < joints.len() && s == counting(
                list,
                data,
                joints,
                vertex,
            ).len() {
                after.joints[s] == joint && after.weights[s] == data.weights[influence.weight as int]
            } else {
                after.joints[s] == before.joints[s] && after.weights[s] == before.weights[s]
            }
        }),
{
    assert(list.push(influence).drop_last() =~= list);
    law_slots_hold_the_first_influences(count, list, data, joints, vertex);
    lemma_free_slot_of(count, list, data, joints, vertex);
    lemma_joint_weights_len(count, list, data, joints);
}

/// Without influences each vertex has four slots of the joint zero and the weight
/// zero.
pub proof fn law_no_influences(count: nat, data: BindDataView, joints: Seq<JointView>, vertex: int, s: int)
    requires
        0 <= vertex < count,
        0 <= s < 4,
    ensures
        joint_weights(count, Seq::empty(), data, joints) is Ok,
        ({
            let weights = joint_weights(count, Seq::empty(), data, joints)->Ok_0;
            &&& weights.len() == count
            &&& weights[vertex].joints.len() == 4 && weights[vertex].weights.len() == 4
            &&& weights[vertex].joints[s] == 0
            &&& weights[vertex].weights[s] == Number::zero_number()
        }),
{
}

/// The joints of a skeleton are known by their names, in order.
pub proof fn law_joint_names(joints: Seq<JointView>)
    ensures
        joint_names(joints).len() == joints.len(),
        forall|i: int| 0 <= i < joints.len() ==> #[trigger] joint_names(joints)[i] == joints[i].name,
{
}

/// A mesh that some bind data is for, in a document with a skeleton, has the joint
/// weights that the influences of the first such bind data give it with the first
/// skeleton, one entry for each vertex.
pub proof fn law_skinned_meshes_have_joint_weights(
    doc: DocumentView,
    data: Seq<BindDataView>,
    id: Seq<char>,
    count: nat,
    skeletons: Seq<SkeletonView>,
    i: int,
)
    requires
        doc.skeletons() == Ok::<_, Malformed>(Some(skeletons)),
        skeletons.len() > 0,
        is_first_for(data, id, i),
    ensures
        ({
            let given = joint_weights(count, data[i].vertex_weights, data[i], skeletons[0].joints);
            &&& doc.mesh_joint_weights(data, id, count) is Err <==> given is Err
            &&& given is Ok ==> doc.mesh_joint_weights(data, id, count) == Ok::<_, Malformed>(
                given->Ok_0,
            ) && given->Ok_0.len() == count
        }),
{
    law_first_bind_data_is_found(data, id);
    let given = joint_weights(count, data[i].vertex_weights, data[i], skeletons[0].joints);
    if given is Ok {
        lemma_joint_weights_len(count, data[i].vertex_weights, data[i], skeletons[0].joints);
    }
}

/// A mesh that no bind data is for has no joint weights, and neither has any mesh
/// of a document without skeletons. Malformed skeletons are malformed here, and so
/// is an empty list of them.
pub proof fn law_other_meshes_have_no_joint_weights(
    doc: DocumentView,
    data: Seq<BindDataView>,
    id: Seq<char>,
    count: nat,
)
    ensures
        doc.skeletons() is Err ==> doc.mesh_joint_weights(data, id, count) is Err,
        is_missing(doc.skeletons()) ==> doc.mesh_joint_weights(data, id, count) is Ok
            && doc.mesh_joint_weights(data, id, count)->Ok_0.len() == 0,
        doc.skeletons() matches Ok(Some(skeletons)) ==> {
            &&& skeletons.len() == 0 ==> doc.mesh_joint_weights(data, id, count) is Err
            &&& skeletons.len() > 0 && (forall|i: int|
                0 <= i < data.len() ==> (#[trigger] data[i]).object_name != id)
                ==> doc.mesh_joint_weights(data, id, count) is Ok && doc.mesh_joint_weights(
                data,
                id,
                count,
            )->Ok_0.len() == 0
        },
{
    law_first_bind_data_is_found(data, id);
}

/// A mesh with bind data in the document, whose `VERTEX` leads to coordinates of
/// points, whose `NORMAL` and `TEXCOORD` lead to coordinates or are left out, and
/// whose joint weights can be given is read: it has the id for its name, the
/// points of each list of coordinates, the joint weights, and the shapes in one
/// geometry without a material.
pub proof fn law_mesh_from_its_parts(
    doc: DocumentView,
    mesh: ElementView,
    holder: ElementView,
    id: Seq<char>,
    shapes: Seq<Shape>,
    data: Seq<BindDataView>,
    positions: Seq<Number>,
    directions: Seq<Number>,
    texture: Seq<Number>,
)
    requires
        doc.bind_data_set() == Ok::<_, Malformed>(Some(data)),
        doc.numbers_behind(mesh, holder, "VERTEX"@) == Ok::<_, Malformed>(Some(positions)),
        doc.numbers_or_none(mesh, holder, "NORMAL"@) == Ok::<_, Malformed>(Some(directions)),
        doc.numbers_or_none(mesh, holder, "TEXCOORD"@) == Ok::<_, Malformed>(Some(texture)),
    ensures
        ({
            let found = doc.object(mesh, holder, id, shapes);
            let weights = doc.mesh_joint_weights(data, id, positions.len() / 3);
            let whole = positions.len() % 3 == 0 && directions.len() % 3 == 0 && texture.len() % 2 == 0;
            &&& !whole || weights is Err ==> found is Err
            &&& whole && weights is Ok ==> {
                &&& is_found(found)
                &&& found->Ok_0->0.name == id
                &&& found->Ok_0->0.vertices == vertices(positions)
                &&& found->Ok_0->0.normals == normals(directions)
                &&& found->Ok_0->0.tex_vertices == tex_vertices(texture)
                &&& found->Ok_0->0.joint_weights == weights->Ok_0
                &&& found->Ok_0->0.geometry.len() == 1
                &&& found->Ok_0->0.geometry[0].material_name is None
                &&& found->Ok_0->0.geometry[0].smooth_shading_group == 0
                &&& found->Ok_0->0.geometry[0].shapes == shapes
            }
        }),
{
}

/// There is no mesh without bind data in the document or without the coordinates
/// that it refers to. Of what it is read from, the first that is missing or
/// malformed decides: the bind data, the points, the directions, the texture
/// points.
pub proof fn law_mesh_without_its_parts(
    doc: DocumentView,
    mesh: ElementView,
    holder: ElementView,
    id: Seq<char>,
    shapes: Seq<Shape>,
)
    ensures
        ({
            let found = doc.object(mesh, holder, id, shapes);
            let data = doc.bind_data_set();
            let positions = doc.numbers_behind(mesh, holder, "VERTEX"@);
            let directions = doc.numbers_or_none(mesh, holder, "NORMAL"@);
            let texture = doc.numbers_or_none(mesh, holder, "TEXCOORD"@);
            &&& data is Err ==> found is Err
            &&& is_missing(data) ==> is_missing(found)
            &&& is_found(data) ==> {
                &&& positions is Err ==> found is Err
                &&& is_missing(positions) ==> is_missing(found)
                &&& is_found(positions) && positions->Ok_0->0.len() % 3 != 0 ==> found is Err
                &&& is_found(positions) && positions->Ok_0->0.len() % 3 == 0 ==> {
                    &&& directions is Err ==> found is Err
                    &&& is_missing(directions) ==> is_missing(found)
                    &&& is_found(directions) && directions->Ok_0->0.len() % 3 != 0 ==> found is Err
                    &&& is_found(directions) && directions->Ok_0->0.len() % 3 == 0 ==> {
                        &&& texture is Err ==> found is Err
                        &&& is_missing(texture) ==> is_missing(found)
                    }
                }
            }
        }),
{
}

/// A `triangles` element makes the mesh of its triangles.
pub proof fn law_mesh_of_triangles(doc: DocumentView, mesh: ElementView, e: ElementView, id: Seq<char>)
    ensures
        doc.shapes(e, "triangles"@) is Err ==> doc.triangles_object(mesh, e, id) is Err,
        is_missing(doc.shapes(e, "triangles"@)) ==> is_missing(doc.triangles_object(mesh, e, id)),
        doc.shapes(e, "triangles"@) matches Ok(Some(shapes)) ==> doc.triangles_object(mesh, e, id)
            == doc.object(mesh, e, id, shapes),
{
}

/// A geometry without an id or a mesh describes nothing. Otherwise it describes
/// the meshes that the `triangles` elements of its mesh make, named by its id.
pub proof fn law_meshes_from_a_geometry(doc: DocumentView, geometry: ElementView)
    ensures
        geometry.attribute("id"@) is None || geometry.element("mesh"@, doc.root.ns) is None
            ==> is_missing(doc.mesh_objects(geometry)),
        geometry.attribute("id"@) is Some && geometry.element("mesh"@, doc.root.ns) is Some ==> {
            let mesh = geometry.element("mesh"@, doc.root.ns)->0;
            let made = doc.objects_among(
                mesh,
                mesh.elements("triangles"@, doc.root.ns),
                geometry.attribute("id"@)->0,
            );
            &&& made is Err ==> doc.mesh_objects(geometry) is Err
            &&& made matches Ok(list) ==> doc.mesh_objects(geometry) == Ok::<_, Malformed>(Some(list))
        },
{
}

/// The meshes of two lists of geometries together are those of the first and then
/// those of the second, and are malformed exactly when those of one of them are.
/// One geometry gives what it describes, or nothing.
pub proof fn law_all_meshes_in_parts(
    doc: DocumentView,
    a: Seq<ElementView>,
    b: Seq<ElementView>,
    geometry: ElementView,
)
    ensures
        doc.all_objects(a + b) == (match (doc.all_objects(a), doc.all_objects(b)) {
            (Ok(x), Ok(y)) => Ok::<_, Malformed>(x + y),
            _ => Err(Malformed {  }),
        }),
        doc.mesh_objects(geometry) is Err ==> doc.all_objects(seq![geometry]) is Err,
        is_missing(doc.mesh_objects(geometry)) ==> doc.all_objects(seq![geometry]) is Ok
            && doc.all_objects(seq![geometry])->Ok_0.len() == 0,
        doc.mesh_objects(geometry) matches Ok(Some(list)) ==> doc.all_objects(seq![geometry]) == Ok::<
            _,
            Malformed,
        >(list),
    decreases b.len(),
{
    lemma_one_geometry(doc, geometry);
    if b.len() == 0 {
        assert(a + b =~= a);
        if doc.all_objects(a) is Ok {
            assert(doc.all_objects(a)->Ok_0 + Seq::<ObjectView>::empty() =~= doc.all_objects(a)->Ok_0);
        }
    } else {
        law_all_meshes_in_parts(doc, a, b.drop_last(), geometry);
        assert((a + b).drop_last() =~= a + b.drop_last());
        assert((a + b).last() == b.last());
        if doc.all_objects(a) is Ok && doc.all_objects(b) is Ok {
            assert(doc.all_objects(a + b)->Ok_0 =~= doc.all_objects(a)->Ok_0 + doc.all_objects(
                b,
            )->Ok_0);
        }
    }
}

proof fn lemma_one_geometry(doc: DocumentView, geometry: ElementView)
    ensures
        doc.mesh_objects(geometry) is Err ==> doc.all_objects(seq![geometry]) is Err,
        is_missing(doc.mesh_objects(geometry)) ==> doc.all_objects(seq![geometry]) is Ok
            && doc.all_objects(seq![geometry])->Ok_0.len() == 0,
        doc.mesh_objects(geometry) matches Ok(Some(list)) ==> doc.all_objects(seq![geometry]) == Ok::<
            _,
            Malformed,
        >(list),
{
    let none = Seq::<ElementView>::empty();
    assert(seq![geometry].drop_last() =~= none);
    assert(doc.all_objects(none) == Ok::<_, Malformed>(Seq::<ObjectView>::empty()));
    if is_found(doc.mesh_objects(geometry)) {
        let list = doc.mesh_objects(geometry)->Ok_0->0;
        assert(Seq::<ObjectView>::empty() + list =~= list);
    }
}

/// The meshes of a document are those of the `geometry` elements of its library,
/// in a set without a library of materials.
pub proof fn law_meshes_of_a_document(doc: DocumentView, library: ElementView)
    requires
        doc.root.element("library_geometries"@, doc.root.ns) == Some(library),
    ensures
        ({
            let all = doc.all_objects(library.elements("geometry"@, doc.root.ns));
            &&& doc.obj_set() is Err <==> all is Err
            &&& all is Ok ==> is_found(doc.obj_set()) && doc.obj_set()->Ok_0->0.objects == all->Ok_0
                && doc.obj_set()->Ok_0->0.material_library is None
        }),
{
}

} // verus!
