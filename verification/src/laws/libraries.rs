//! What the libraries of a document give.

use vstd::prelude::*;

use crate::document::{DocumentView, Malformed, Outcome};
use crate::element::ElementView;
use crate::mesh::{bind_data_for, joint_weights};
use crate::obj::ObjectView;
use crate::skin::{BindDataView, JointView, VertexWeight};

verus! {

/// The animations are missing exactly when their library is, and so are the bind
/// data and the meshes.
pub proof fn law_missing_libraries(doc: DocumentView)
    ensures
        doc.animations() matches Ok(None) <==> doc.root.element(
            "library_animations"@,
            doc.root.ns,
        ) is None,
        doc.bind_data_set() matches Ok(None) <==> doc.root.element(
            "library_controllers"@,
            doc.root.ns,
        ) is None,
        doc.obj_set() matches Ok(None) <==> doc.root.element(
            "library_geometries"@,
            doc.root.ns,
        ) is None,
{
}

/// Without a library of controllers, or without one of visual scenes, there are
/// no skeletons.
pub proof fn law_no_skeletons_without_controllers(doc: DocumentView)
    requires
        doc.root.element("library_controllers"@, doc.root.ns) is None || doc.root.element(
            "library_visual_scenes"@,
            doc.root.ns,
        ) is None,
    ensures
        doc.skeletons() matches Ok(None),
{
}

/// Whether an outcome is a finding.
pub open spec fn is_found<T>(r: Outcome<T>) -> bool {
    r is Ok && r->Ok_0 is Some
}

/// Whether an outcome is that there is nothing.
pub open spec fn is_missing<T>(r: Outcome<T>) -> bool {
    r is Ok && r->Ok_0 is None
}

/// What a list of outcomes comes to: all that was found, in order. The list is
/// malformed where one of them is.
pub open spec fn gathered<T>(outcomes: Seq<Outcome<T>>) -> Result<Seq<T>, Malformed>
    decreases outcomes.len(),
{
    if outcomes.len() == 0 {
        Ok(Seq::empty())
    } else {
        match (gathered(outcomes.drop_last()), outcomes.last()) {
            (Ok(before), Ok(Some(found))) => Ok(before.push(found)),
            (Ok(before), Ok(None)) => Ok(before),
            _ => Err(Malformed {  }),
        }
    }
}

/// A list is malformed exactly when one of its outcomes is. Where every outcome
/// is a finding, the list holds one for each, in order.
pub proof fn law_gathered_one_by_one<T>(outcomes: Seq<Outcome<T>>)
    ensures
        gathered(outcomes) is Ok <==> forall|i: int|
            0 <= i < outcomes.len() ==> #[trigger] outcomes[i] is Ok,
        (forall|i: int| 0 <= i < outcomes.len() ==> #[trigger] outcomes[i] matches Ok(Some(_))) ==> {
            &&& gathered(outcomes) is Ok
            &&& gathered(outcomes)->Ok_0.len() == outcomes.len()
            &&& forall|i: int|
                0 <= i < outcomes.len() ==> #[trigger] outcomes[i] == Ok::<_, Malformed>(
                    Some(gathered(outcomes)->Ok_0[i]),
                )
        },
    decreases outcomes.len(),
{
    if outcomes.len() > 0 {
        let shorter = outcomes.drop_last();
        let n = shorter.len() as int;
        law_gathered_one_by_one(shorter);
        assert forall|i: int| 0 <= i < n implies #[trigger] shorter[i] == outcomes[i] by {}
        assert(outcomes.last() == outcomes[n]);
        if gathered(outcomes) is Ok {
            assert forall|i: int| 0 <= i < outcomes.len() implies #[trigger] outcomes[i] is Ok by {
                if i < n {
                    assert(shorter[i] is Ok);
                }
            }
        }
        if forall|i: int| 0 <= i < outcomes.len() ==> #[trigger] outcomes[i] matches Ok(Some(_)) {
            assert(outcomes[n] matches Ok(Some(_)));
            assert forall|i: int| 0 <= i < outcomes.len() implies #[trigger] outcomes[i] == Ok::<
                _,
                Malformed,
            >(Some(gathered(outcomes)->Ok_0[i])) by {
                if i < n {
                    assert(shorter[i] == Ok::<_, Malformed>(Some(gathered(shorter)->Ok_0[i])));
                }
            }
        }
    }
}

/// What a list comes to is what its first part comes to and then what the rest
/// does.
pub proof fn law_gathered_in_parts<T>(a: Seq<Outcome<T>>, b: Seq<Outcome<T>>)
    ensures
        gathered(a + b) == (match (gathered(a), gathered(b)) {
            (Ok(x), Ok(y)) => Ok::<_, Malformed>(x + y),
            _ => Err(Malformed {  }),
        }),
    decreases b.len(),
{
    if b.len() == 0 {
        assert(a + b =~= a);
        if gathered(a) is Ok {
            assert(gathered(a)->Ok_0 + Seq::<T>::empty() =~= gathered(a)->Ok_0);
        }
    } else {
        law_gathered_in_parts(a, b.drop_last());
        assert((a + b).drop_last() =~= a + b.drop_last());
        assert((a + b).last() == b.last());
        if gathered(a) is Ok && gathered(b) is Ok {
            assert(gathered(a + b)->Ok_0 =~= gathered(a)->Ok_0 + gathered(b)->Ok_0);
        }
    }
}

/// The animations of a list of elements are what reading each of them comes to.
pub proof fn law_animations_are_gathered(doc: DocumentView, list: Seq<ElementView>)
    ensures
        doc.animations_among(list) == gathered(
            Seq::new(list.len(), |i: int| doc.animation(list[i])),
        ),
    decreases list.len(),
{
    let outcomes = Seq::new(list.len(), |i: int| doc.animation(list[i]));
    if list.len() > 0 {
        law_animations_are_gathered(doc, list.drop_last());
        assert(outcomes.drop_last() =~= Seq::new(
            list.drop_last().len(),
            |i: int| doc.animation(list.drop_last()[i]),
        ));
    }
}

/// The bind data of a list of controllers is what reading each of them comes to.
pub proof fn law_bind_data_is_gathered(doc: DocumentView, list: Seq<ElementView>)
    ensures
        doc.bind_data_among(list) == gathered(
            Seq::new(list.len(), |i: int| doc.bind_data(list[i])),
        ),
    decreases list.len(),
{
    let outcomes = Seq::new(list.len(), |i: int| doc.bind_data(list[i]));
    if list.len() > 0 {
        law_bind_data_is_gathered(doc, list.drop_last());
        assert(outcomes.drop_last() =~= Seq::new(
            list.drop_last().len(),
            |i: int| doc.bind_data(list.drop_last()[i]),
        ));
    }
}

/// The skeletons of a list of roots are what reading each of them with the first
/// of the bind data comes to.
pub proof fn law_skeletons_are_gathered(
    doc: DocumentView,
    roots: Seq<ElementView>,
    data: Seq<BindDataView>,
)
    requires
        data.len() > 0,
    ensures
        doc.skeletons_among(roots, data) == gathered(
            Seq::new(roots.len(), |i: int| doc.skeleton(roots[i], data[0])),
        ),
    decreases roots.len(),
{
    let outcomes = Seq::new(roots.len(), |i: int| doc.skeleton(roots[i], data[0]));
    if roots.len() > 0 {
        law_skeletons_are_gathered(doc, roots.drop_last(), data);
        assert(outcomes.drop_last() =~= Seq::new(
            roots.drop_last().len(),
            |i: int| doc.skeleton(roots.drop_last()[i], data[0]),
        ));
    }
}

/// The meshes of a list of `triangles` elements are what reading each of them
/// comes to.
pub proof fn law_meshes_are_gathered(
    doc: DocumentView,
    mesh: ElementView,
    list: Seq<ElementView>,
    id: Seq<char>,
)
    ensures
        doc.objects_among(mesh, list, id) == gathered(
            Seq::new(list.len(), |i: int| doc.triangles_object(mesh, list[i], id)),
        ),
    decreases list.len(),
{
    let outcomes = Seq::new(list.len(), |i: int| doc.triangles_object(mesh, list[i], id));
    if list.len() > 0 {
        law_meshes_are_gathered(doc, mesh, list.drop_last(), id);
        assert(outcomes.drop_last() =~= Seq::new(
            list.drop_last().len(),
            |i: int| doc.triangles_object(mesh, list.drop_last()[i], id),
        ));
    }
}

/// Whether a mesh is of the form that all meshes have: a single geometry without
/// a material, of triangles only, and joint weights for each vertex or for none.
pub open spec fn is_plain_mesh(o: ObjectView) -> bool {
    &&& o.geometry.len() == 1
    &&& o.geometry[0].material_name is None
    &&& o.geometry[0].smooth_shading_group == 0
    &&& forall|i: int|
        0 <= i < o.geometry[0].shapes.len() ==> #[trigger] o.geometry[0].shapes[i] is Triangle
    &&& o.joint_weights.len() == 0 || o.joint_weights.len() == o.vertices.len()
}

pub(crate) proof fn lemma_joint_weights_len(
    count: nat,
    list: Seq<VertexWeight>,
    data: BindDataView,
    joints: Seq<JointView>,
)
    requires
        joint_weights(count, list, data, joints) is Ok,
    ensures
        joint_weights(count, list, data, joints)->Ok_0.len() == count,
    decreases list.len(),
{
    if list.len() > 0 {
        lemma_joint_weights_len(count, list.drop_last(), data, joints);
    }
}

proof fn lemma_object_is_plain(doc: DocumentView, mesh: ElementView, e: ElementView, id: Seq<char>)
    requires
        doc.triangles_object(mesh, e, id) matches Ok(Some(_)),
    ensures
        is_plain_mesh(doc.triangles_object(mesh, e, id)->Ok_0->0),
        doc.triangles_object(mesh, e, id)->Ok_0->0.name == id,
        doc.bind_data_set() matches Ok(Some(_)),
{
    match (doc.skeletons(), doc.bind_data_set()) {
        (Ok(Some(skeletons)), Ok(Some(list))) => {
            match bind_data_for(list, id) {
                Some(data) => {
                    let o = doc.triangles_object(mesh, e, id)->Ok_0->0;
                    lemma_joint_weights_len(
                        o.vertices.len(),
                        data.vertex_weights,
                        data,
                        skeletons[0].joints,
                    );
                },
                None => {},
            }
        },
        _ => {},
    }
}

proof fn lemma_objects_are_plain(doc: DocumentView, mesh: ElementView, list: Seq<ElementView>, id: Seq<char>)
    requires
        doc.objects_among(mesh, list, id) is Ok,
    ensures
        forall|i: int|
            0 <= i < doc.objects_among(mesh, list, id)->Ok_0.len() ==> {
                &&& is_plain_mesh(#[trigger] doc.objects_among(mesh, list, id)->Ok_0[i])
                &&& doc.objects_among(mesh, list, id)->Ok_0[i].name == id
            },
        doc.objects_among(mesh, list, id)->Ok_0.len() > 0 ==> doc.bind_data_set() matches Ok(Some(_)),
        doc.objects_among(mesh, list, id)->Ok_0.len() <= list.len(),
    decreases list.len(),
{
    if list.len() > 0 {
        lemma_objects_are_plain(doc, mesh, list.drop_last(), id);
        let before = doc.objects_among(mesh, list.drop_last(), id)->Ok_0;
        let all = doc.objects_among(mesh, list, id)->Ok_0;
        if doc.triangles_object(mesh, list.last(), id) matches Ok(Some(_)) {
            lemma_object_is_plain(doc, mesh, list.last(), id);
            assert forall|i: int| 0 <= i < all.len() implies is_plain_mesh(#[trigger] all[i]) && all[i].name
                == id by {
                if i < before.len() {
                    assert(all[i] == before[i]);
                }
            }
        }
    }
}

/// The meshes of a geometry are named by its id and are plain. There are no more
/// of them than it has `triangles` elements, and none without bind data.
pub proof fn law_meshes_of_a_geometry(doc: DocumentView, geometry: ElementView)
    requires
        doc.mesh_objects(geometry) matches Ok(Some(_)),
    ensures
        ({
            let list = doc.mesh_objects(geometry)->Ok_0->0;
            let mesh = geometry.element("mesh"@, doc.root.ns);
            &&& mesh is Some
            &&& list.len() <= mesh->0.elements("triangles"@, doc.root.ns).len()
            &&& forall|i: int|
                0 <= i < list.len() ==> is_plain_mesh(#[trigger] list[i]) && Some(list[i].name)
                    == geometry.attribute("id"@)
            &&& list.len() > 0 ==> doc.bind_data_set() matches Ok(Some(_))
        }),
{
    match (geometry.attribute("id"@), geometry.element("mesh"@, doc.root.ns)) {
        (Some(id), Some(mesh)) => {
            lemma_objects_are_plain(doc, mesh, mesh.elements("triangles"@, doc.root.ns), id);
        },
        _ => {},
    }
}

proof fn lemma_all_objects_are_plain(doc: DocumentView, list: Seq<ElementView>)
    requires
        doc.all_objects(list) is Ok,
    ensures
        forall|i: int|
            0 <= i < doc.all_objects(list)->Ok_0.len() ==> is_plain_mesh(
                #[trigger] doc.all_objects(list)->Ok_0[i],
            ),
        doc.all_objects(list)->Ok_0.len() > 0 ==> doc.bind_data_set() matches Ok(Some(_)),
    decreases list.len(),
{
    if list.len() > 0 {
        lemma_all_objects_are_plain(doc, list.drop_last());
        let before = doc.all_objects(list.drop_last())->Ok_0;
        let all = doc.all_objects(list)->Ok_0;
        if doc.mesh_objects(list.last()) matches Ok(Some(_)) {
            law_meshes_of_a_geometry(doc, list.last());
            let added = doc.mesh_objects(list.last())->Ok_0->0;
            assert forall|i: int| 0 <= i < all.len() implies is_plain_mesh(#[trigger] all[i]) by {
                if i < before.len() {
                    assert(all[i] == before[i]);
                } else {
                    assert(all[i] == added[i - before.len()]);
                }
            }
        }
    }
}

/// All the meshes of a document are plain, their set names no library of
/// materials, and without bind data there are none.
pub proof fn law_all_meshes_are_plain(doc: DocumentView)
    requires
        doc.obj_set() matches Ok(Some(_)),
    ensures
        ({
            let set = doc.obj_set()->Ok_0->0;
            &&& set.material_library is None
            &&& forall|i: int| 0 <= i < set.objects.len() ==> is_plain_mesh(#[trigger] set.objects[i])
            &&& set.objects.len() > 0 ==> doc.bind_data_set() matches Ok(Some(_))
        }),
{
    let library = doc.root.element("library_geometries"@, doc.root.ns)->0;
    lemma_all_objects_are_plain(doc, library.elements("geometry"@, doc.root.ns));
}

} // verus!
