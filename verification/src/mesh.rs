//! The meshes of a document.

use vstd::prelude::*;

use crate::document::{list_outcome, ColladaDocument, DocumentView, Malformed, Outcome};
use crate::element::{element_views, ElementView, XmlElement};
use crate::number::Number;
use crate::obj::{geometry_views, joint_weights_views, object_views, Geometry, GeometryView};
use crate::obj::{JointWeights, JointWeightsView, Normal, ObjSet, ObjSetView, Object, ObjectView};
use crate::obj::{Shape, TVertex, Vertex};
use crate::skin::{bind_data_views, joint_views, skeleton_views, BindData, BindDataView, Joint};
use crate::skin::{JointView, VertexWeight};
use crate::text::first_place;

verus! {

/// The points that a list of coordinates gives, three to a point.
pub open spec fn vertices(numbers: Seq<Number>) -> Seq<Vertex> {
    Seq::new(
        numbers.len() / 3,
        |i: int| Vertex { x: numbers[3 * i], y: numbers[3 * i + 1], z: numbers[3 * i + 2] },
    )
}

/// The directions that a list of coordinates gives, three to a direction.
pub open spec fn normals(numbers: Seq<Number>) -> Seq<Normal> {
    Seq::new(
        numbers.len() / 3,
        |i: int| Normal { x: numbers[3 * i], y: numbers[3 * i + 1], z: numbers[3 * i + 2] },
    )
}

/// The texture points that a list of coordinates gives, two to a point.
pub open spec fn tex_vertices(numbers: Seq<Number>) -> Seq<TVertex> {
    Seq::new(numbers.len() / 2, |i: int| TVertex { x: numbers[2 * i], y: numbers[2 * i + 1] })
}

/// The first slot whose weight is zero, or the number of slots where none is.
pub open spec fn free_slot(weights: Seq<Number>) -> nat
    decreases weights.len(),
{
    if weights.len() == 0 || weights[0].vanishes() {
        0
    } else {
        1 + free_slot(weights.drop_first())
    }
}

/// Joint weights that are all free.
pub open spec fn no_joint_weights() -> JointWeightsView {
    JointWeightsView {
        joints: seq![0usize, 0usize, 0usize, 0usize],
        weights: seq![
            Number::zero_number(),
            Number::zero_number(),
            Number::zero_number(),
            Number::zero_number(),
        ],
    }
}

/// Joint weights with a joint and its weight in the given slot.
pub open spec fn with_joint(w: JointWeightsView, slot: int, joint: usize, weight: Number) -> JointWeightsView {
    JointWeightsView { joints: w.joints.update(slot, joint), weights: w.weights.update(slot, weight) }
}

/// The names of the joints of a skeleton.
pub open spec fn joint_names(joints: Seq<JointView>) -> Seq<Seq<char>> {
    Seq::new(joints.len(), |i: int| joints[i].name)
}

/// The joint weights of all the vertices with one influence more: it goes into
/// the first free slot of its vertex. One that finds no free slot, or whose
/// joint the skeleton does not have, is dropped. One that names a joint, a
/// vertex or, where it is not dropped, a weight that is not there is malformed.
pub open spec fn with_influence(
    list: Seq<JointWeightsView>,
    influence: VertexWeight,
    data: BindDataView,
    joints: Seq<JointView>,
) -> Result<Seq<JointWeightsView>, Malformed> {
    if influence.joint >= data.joint_names.len() || influence.vertex >= list.len() {
        Err(Malformed {  })
    } else {
        let held = list[influence.vertex as int];
        let slot = free_slot(held.weights);
        let joint = first_place(joint_names(joints), data.joint_names[influence.joint as int]);
        if slot >= held.weights.len() || joint >= joints.len() {
            Ok(list)
        } else if influence.weight >= data.weights.len() {
            Err(Malformed {  })
        } else {
            Ok(
                list.update(
                    influence.vertex as int,
                    with_joint(
                        held,
                        slot as int,
                        joint as usize,
                        data.weights[influence.weight as int],
                    ),
                ),
            )
        }
    }
}

/// The joint weights of `count` vertices after the given influences.
pub open spec fn joint_weights(
    count: nat,
    influences: Seq<VertexWeight>,
    data: BindDataView,
    joints: Seq<JointView>,
) -> Result<Seq<JointWeightsView>, Malformed>
    decreases influences.len(),
{
    if influences.len() == 0 {
        Ok(Seq::new(count, |i: int| no_joint_weights()))
    } else {
        match joint_weights(count, influences.drop_last(), data, joints) {
            Ok(before) => with_influence(before, influences.last(), data, joints),
            Err(e) => Err(e),
        }
    }
}

/// The first of a list of bind data that is for the mesh of the given name.
pub open spec fn bind_data_for(list: Seq<BindDataView>, object_name: Seq<char>) -> Option<BindDataView>
    decreases list.len(),
{
    if list.len() == 0 {
        None
    } else if list[0].object_name == object_name {
        Some(list[0])
    } else {
        bind_data_for(list.drop_first(), object_name)
    }
}

impl DocumentView {
    /// The numbers behind the first input of `holder` that has the given
    /// semantic; no numbers where it has no such input.
    pub open spec fn numbers_or_none(self, mesh: ElementView, holder: ElementView, semantic: Seq<char>) -> Outcome<
        Seq<Number>,
    > {
        match self.input(holder, semantic) {
            Some(input) => self.numbers_for_input(mesh, input),
            None => Ok(Some(Seq::empty())),
        }
    }

    /// The joint weights of the vertices of a mesh, in terms of the first
    /// skeleton of the document; none where there are no skeletons or no bind
    /// data for the mesh.
    pub open spec fn mesh_joint_weights(self, data: Seq<BindDataView>, id: Seq<char>, count: nat) -> Result<
        Seq<JointWeightsView>,
        Malformed,
    > {
        match self.skeletons() {
            Ok(Some(skeletons)) => if skeletons.len() == 0 {
                Err(Malformed {  })
            } else {
                match bind_data_for(data, id) {
                    Some(data) => joint_weights(
                        count,
                        data.vertex_weights,
                        data,
                        skeletons[0].joints,
                    ),
                    None => Ok(Seq::empty()),
                }
            },
            Ok(None) => Ok(Seq::empty()),
            Err(e) => Err(e),
        }
    }

    /// The mesh that the given shapes make with the coordinates that their
    /// element refers to. Coordinates that are no whole number of points are
    /// malformed.
    pub open spec fn object(
        self,
        mesh: ElementView,
        holder: ElementView,
        id: Seq<char>,
        shapes: Seq<Shape>,
    ) -> Outcome<ObjectView> {
        match self.bind_data_set() {
            Ok(Some(data)) => match self.numbers_behind(mesh, holder, "VERTEX"@) {
                Ok(Some(positions)) => if positions.len() % 3 != 0 {
                    Err(Malformed {  })
                } else {
                    self.object_at(mesh, holder, id, shapes, data, positions)
                },
                Ok(None) => Ok(None),
                Err(e) => Err(e),
            },
            Ok(None) => Ok(None),
            Err(e) => Err(e),
        }
    }

    /// The mesh once the bind data and the coordinates of its vertices are
    /// known.
    pub open spec fn object_at(
        self,
        mesh: ElementView,
        holder: ElementView,
        id: Seq<char>,
        shapes: Seq<Shape>,
        data: Seq<BindDataView>,
        positions: Seq<Number>,
    ) -> Outcome<ObjectView> {
        match self.numbers_or_none(mesh, holder, "NORMAL"@) {
            Ok(Some(directions)) => if directions.len() % 3 != 0 {
                Err(Malformed {  })
            } else {
                match self.numbers_or_none(mesh, holder, "TEXCOORD"@) {
                    Ok(Some(texture)) => if texture.len() % 2 != 0 {
                        Err(Malformed {  })
                    } else {
                        match self.mesh_joint_weights(data, id, vertices(positions).len()) {
                            Ok(weights) => Ok(
                                Some(
                                    ObjectView {
                                        name: id,
                                        vertices: vertices(positions),
                                        tex_vertices: tex_vertices(texture),
                                        normals: normals(directions),
                                        joint_weights: weights,
                                        geometry: seq![
                                            GeometryView {
                                                material_name: None,
                                                smooth_shading_group: 0,
                                                shapes,
                                            },
                                        ],
                                    },
                                ),
                            ),
                            Err(e) => Err(e),
                        }
                    },
                    Ok(None) => Ok(None),
                    Err(e) => Err(e),
                }
            },
            Ok(None) => Ok(None),
            Err(e) => Err(e),
        }
    }

    /// The mesh that a `triangles` element makes.
    pub open spec fn triangles_object(self, mesh: ElementView, holder: ElementView, id: Seq<char>) -> Outcome<
        ObjectView,
    > {
        match self.shapes(holder, "triangles"@) {
            Ok(Some(shapes)) => self.object(mesh, holder, id, shapes),
            Ok(None) => Ok(None),
            Err(e) => Err(e),
        }
    }

    /// The meshes that the given `triangles` elements make, those that make none
    /// left out.
    pub open spec fn objects_among(self, mesh: ElementView, list: Seq<ElementView>, id: Seq<char>) -> Result<
        Seq<ObjectView>,
        Malformed,
    >
        decreases list.len(),
    {
        if list.len() == 0 {
            Ok(Seq::empty())
        } else {
            match (
                self.objects_among(mesh, list.drop_last(), id),
                self.triangles_object(mesh, list.last(), id),
            ) {
                (Ok(before), Ok(Some(object))) => Ok(before.push(object)),
                (Ok(before), Ok(None)) => Ok(before),
                _ => Err(Malformed {  }),
            }
        }
    }

    /// The meshes that a `geometry` element describes, one for each of the
    /// `triangles` elements of its mesh.
    pub open spec fn mesh_objects(self, geometry: ElementView) -> Outcome<Seq<ObjectView>> {
        match (geometry.attribute("id"@), geometry.element("mesh"@, self.root.ns)) {
            (Some(id), Some(mesh)) => match self.objects_among(
                mesh,
                mesh.elements("triangles"@, self.root.ns),
                id,
            ) {
                Ok(list) => Ok(Some(list)),
                Err(e) => Err(e),
            },
            _ => Ok(None),
        }
    }

    /// The meshes that the given `geometry` elements describe.
    pub open spec fn all_objects(self, list: Seq<ElementView>) -> Result<Seq<ObjectView>, Malformed>
        decreases list.len(),
    {
        if list.len() == 0 {
            Ok(Seq::empty())
        } else {
            match (self.all_objects(list.drop_last()), self.mesh_objects(list.last())) {
                (Ok(before), Ok(Some(objects))) => Ok(before + objects),
                (Ok(before), Ok(None)) => Ok(before),
                _ => Err(Malformed {  }),
            }
        }
    }

    /// All the meshes of the document, or nothing where it has no library of
    /// them.
    pub open spec fn obj_set(self) -> Outcome<ObjSetView> {
        match self.root.element("library_geometries"@, self.root.ns) {
            Some(library) => match self.all_objects(library.elements("geometry"@, self.root.ns)) {
                Ok(objects) => Ok(Some(ObjSetView { material_library: None, objects })),
                Err(e) => Err(e),
            },
            None => Ok(None),
        }
    }
}

/// What reading a mesh gives.
pub open spec fn object_outcome(r: Outcome<Object>) -> Outcome<ObjectView> {
    match r {
        Ok(Some(o)) => Ok(Some(o@)),
        Ok(None) => Ok(None),
        Err(e) => Err(e),
    }
}

/// What reading meshes gives.
pub open spec fn objects_outcome(r: Outcome<Vec<Object>>) -> Outcome<Seq<ObjectView>> {
    match r {
        Ok(Some(list)) => Ok(Some(object_views(list@))),
        Ok(None) => Ok(None),
        Err(e) => Err(e),
    }
}

/// What reading all the meshes gives.
pub open spec fn obj_set_outcome(r: Outcome<ObjSet>) -> Outcome<ObjSetView> {
    match r {
        Ok(Some(set)) => Ok(Some(set@)),
        Ok(None) => Ok(None),
        Err(e) => Err(e),
    }
}

/// Makes points of coordinates.
fn make_vertices(numbers: &Vec<Number>) -> (r: Vec<Vertex>)
    ensures
        r@ == vertices(numbers@),
{
    let mut out: Vec<Vertex> = Vec::new();
    let count: usize = numbers.len() / 3;
    let mut i: usize = 0;
    while i < count
        invariant
            i <= count,
            count == numbers@.len() / 3,
            numbers@.len() <= usize::MAX,
            out@.len() == i,
            forall|j: int| 0 <= j < i ==> #[trigger] out@[j] == vertices(numbers@)[j],
        decreases count - i,
    {
        out.push(Vertex { x: numbers[3 * i], y: numbers[3 * i + 1], z: numbers[3 * i + 2] });
        i = i + 1;
    }
    assert(out@ =~= vertices(numbers@));
    out
}

/// Makes directions of coordinates.
fn make_normals(numbers: &Vec<Number>) -> (r: Vec<Normal>)
    ensures
        r@ == normals(numbers@),
{
    let mut out: Vec<Normal> = Vec::new();
    let count: usize = numbers.len() / 3;
    let mut i: usize = 0;
    while i < count
        invariant
            i <= count,
            count == numbers@.len() / 3,
            numbers@.len() <= usize::MAX,
            out@.len() == i,
            forall|j: int| 0 <= j < i ==> #[trigger] out@[j] == normals(numbers@)[j],
        decreases count - i,
    {
        out.push(Normal { x: numbers[3 * i], y: numbers[3 * i + 1], z: numbers[3 * i + 2] });
        i = i + 1;
    }
    assert(out@ =~= normals(numbers@));
    out
}

/// Makes texture points of coordinates.
fn make_tex_vertices(numbers: &Vec<Number>) -> (r: Vec<TVertex>)
    ensures
        r@ == tex_vertices(numbers@),
{
    let mut out: Vec<TVertex> = Vec::new();
    let count: usize = numbers.len() / 2;
    let mut i: usize = 0;
    while i < count
        invariant
            i <= count,
            count == numbers@.len() / 2,
            numbers@.len() <= usize::MAX,
            out@.len() == i,
            forall|j: int| 0 <= j < i ==> #[trigger] out@[j] == tex_vertices(numbers@)[j],
        decreases count - i,
    {
        out.push(TVertex { x: numbers[2 * i], y: numbers[2 * i + 1] });
        i = i + 1;
    }
    assert(out@ =~= tex_vertices(numbers@));
    out
}

/// Finds the first slot whose weight is zero.
fn find_free_slot(w: &JointWeights) -> (r: usize)
    ensures
        r == free_slot(w@.weights),
        r <= 4,
{
    let ghost all = w@.weights;
    assert(all.skip(0) =~= all);
    let mut i: usize = 0;
    while i < 4
        invariant
            i <= 4,
            all == w.weights@,
            free_slot(all) == i + free_slot(all.skip(i as int)),
        decreases 4 - i,
    {
        assert(all.skip(i as int).drop_first() =~= all.skip(i + 1));
        if w.weights[i].is_zero() {
            return i;
        }
        i = i + 1;
    }
    i
}

/// Finds the first joint of the given name; the number of joints where there is
/// none.
fn find_joint(joints: &Vec<Joint>, name: &String) -> (r: usize)
    ensures
        r == first_place(joint_names(joint_views(joints@)), name@),
        r <= joints@.len(),
{
    let ghost names = joint_names(joint_views(joints@));
    assert(names.skip(0) =~= names);
    let mut i: usize = 0;
    while i < joints.len()
        invariant
            i <= joints@.len(),
            names == joint_names(joint_views(joints@)),
            first_place(names, name@) == i + first_place(names.skip(i as int), name@),
        decreases joints.len() - i,
    {
        assert(names.skip(i as int)[0] == joints@[i as int].name@);
        assert(names.skip(i as int).drop_first() =~= names.skip(i + 1));
        if joints[i].name == *name {
            return i;
        }
        i = i + 1;
    }
    i
}

/// Where some influence is malformed, so is the list that it stands in.
proof fn lemma_joint_weights_malformed(
    count: nat,
    influences: Seq<VertexWeight>,
    data: BindDataView,
    joints: Seq<JointView>,
    k: int,
)
    requires
        0 <= k <= influences.len(),
        joint_weights(count, influences.take(k), data, joints) is Err,
    ensures
        joint_weights(count, influences, data, joints) is Err,
    decreases influences.len() - k,
{
    if k == influences.len() {
        assert(influences.take(k) =~= influences);
    } else {
        assert(influences.take(k + 1).drop_last() =~= influences.take(k));
        lemma_joint_weights_malformed(count, influences, data, joints, k + 1);
    }
}

/// Hands the influences that bind data lists out to `count` vertices.
pub fn assign_joint_weights(count: usize, data: &BindData, joints: &Vec<Joint>) -> (r: Result<
    Vec<JointWeights>,
    Malformed,
>)
    ensures
        match r {
            Ok(list) => joint_weights(
                count as nat,
                data@.vertex_weights,
                data@,
                joint_views(joints@),
            ) == Ok::<_, Malformed>(joint_weights_views(list@)),
            Err(_) => joint_weights(
                count as nat,
                data@.vertex_weights,
                data@,
                joint_views(joints@),
            ) is Err,
        },
{
    let ghost influences = data@.vertex_weights;
    let zero = Number::zero();
    let mut list: Vec<JointWeights> = Vec::new();
    let mut n: usize = 0;
    while n < count
        invariant
            n <= count,
            zero == Number::zero_number(),
            list@.len() == n,
            forall|j: int| 0 <= j < n ==> (#[trigger] list@[j])@ == no_joint_weights(),
        decreases count - n,
    {
        let free = JointWeights { joints: [0, 0, 0, 0], weights: [zero, zero, zero, zero] };
        assert(free@ =~= no_joint_weights());
        list.push(free);
        n = n + 1;
    }
    assert(joint_weights_views(list@) =~= Seq::new(count as nat, |i: int| no_joint_weights()));
    let mut i: usize = 0;
    while i < data.vertex_weights.len()
        invariant
            i <= data.vertex_weights@.len(),
            influences == data.vertex_weights@,
            list@.len() == count,
            joint_weights(
                count as nat,
                influences.take(i as int),
                data@,
                joint_views(joints@),
            ) == Ok::<_, Malformed>(joint_weights_views(list@)),
        decreases data.vertex_weights.len() - i,
    {
        let influence = data.vertex_weights[i];
        let ghost held = list@;
        let ghost views = joint_weights_views(list@);
        assert(influences.take(i + 1).drop_last() =~= influences.take(i as int));
        assert(influences.take(i + 1).last() == influence);
        if influence.joint as usize >= data.joint_names.len() || influence.vertex >= list.len() {
            proof {
                lemma_joint_weights_malformed(
                    count as nat,
                    influences,
                    data@,
                    joint_views(joints@),
                    i + 1,
                );
            }
            return Err(Malformed {  });
        }
        let joint_name = &data.joint_names[influence.joint as usize];
        assert(data@.joint_names[influence.joint as int] == joint_name@);
        let mut of_vertex: JointWeights = list[influence.vertex];
        let ghost before = of_vertex@;
        assert(views[influence.vertex as int] == before);
        let slot = find_free_slot(&of_vertex);
        let joint = find_joint(joints, joint_name);
        if slot < 4 && joint < joints.len() {
            if influence.weight >= data.weights.len() {
                proof {
                    lemma_joint_weights_malformed(
                        count as nat,
                        influences,
                        data@,
                        joint_views(joints@),
                        i + 1,
                    );
                }
                return Err(Malformed {  });
            }
            let weight = data.weights[influence.weight];
            of_vertex.joints[slot] = joint;
            of_vertex.weights[slot] = weight;
            assert(of_vertex@ =~= with_joint(before, slot as int, joint, weight));
            list.set(influence.vertex, of_vertex);
            assert(joint_weights_views(list@) =~= views.update(
                influence.vertex as int,
                of_vertex@,
            ));
        }
        i = i + 1;
    }
    assert(influences.take(influences.len() as int) =~= influences);
    Ok(list)
}

/// Finds the first of a list of bind data that is for the mesh of the given
/// name.
fn find_bind_data<'a>(list: &'a Vec<BindData>, object_name: &str) -> (r: Option<&'a BindData>)
    ensures
        match r {
            Some(data) => bind_data_for(bind_data_views(list@), object_name@) == Some(data@),
            None => bind_data_for(bind_data_views(list@), object_name@) is None,
        },
{
    let ghost all = bind_data_views(list@);
    assert(all.skip(0) =~= all);
    let mut i: usize = 0;
    while i < list.len()
        invariant
            i <= list@.len(),
            all == bind_data_views(list@),
            bind_data_for(all, object_name@) == bind_data_for(all.skip(i as int), object_name@),
        decreases list.len() - i,
    {
        assert(all.skip(i as int)[0] == list@[i as int]@);
        assert(all.skip(i as int).drop_first() =~= all.skip(i + 1));
        if *list[i].object_name.as_str() == *object_name {
            return Some(&list[i]);
        }
        i = i + 1;
    }
    None
}

/// A malformed element makes the list that it stands in malformed.
proof fn lemma_objects_malformed(
    doc: DocumentView,
    mesh: ElementView,
    list: Seq<ElementView>,
    id: Seq<char>,
    k: int,
)
    requires
        0 <= k <= list.len(),
        doc.objects_among(mesh, list.take(k), id) is Err,
    ensures
        doc.objects_among(mesh, list, id) is Err,
    decreases list.len() - k,
{
    if k == list.len() {
        assert(list.take(k) =~= list);
    } else {
        assert(list.take(k + 1).drop_last() =~= list.take(k));
        lemma_objects_malformed(doc, mesh, list, id, k + 1);
    }
}

/// A malformed element makes the list that it stands in malformed.
proof fn lemma_all_objects_malformed(doc: DocumentView, list: Seq<ElementView>, k: int)
    requires
        0 <= k <= list.len(),
        doc.all_objects(list.take(k)) is Err,
    ensures
        doc.all_objects(list) is Err,
    decreases list.len() - k,
{
    if k == list.len() {
        assert(list.take(k) =~= list);
    } else {
        assert(list.take(k + 1).drop_last() =~= list.take(k));
        lemma_all_objects_malformed(doc, list, k + 1);
    }
}

impl ColladaDocument {
    /// The numbers behind the first input of `holder` that has the given
    /// semantic; no numbers where it has no such input.
    fn get_numbers_or_none(&self, mesh: &XmlElement, holder: &XmlElement, semantic: &str) -> (r: Outcome<
        Vec<Number>,
    >)
        ensures
            list_outcome(r) == self@.numbers_or_none(mesh@, holder@, semantic@),
    {
        match self.get_input(holder, semantic) {
            Some(input) => self.get_numbers_for_input(mesh, input),
            None => Ok(Some(Vec::new())),
        }
    }

    /// The joint weights of the vertices of a mesh.
    fn get_joint_weights(&self, data: &Vec<BindData>, id: &str, count: usize) -> (r: Result<
        Vec<JointWeights>,
        Malformed,
    >)
        ensures
            match r {
                Ok(list) => self@.mesh_joint_weights(bind_data_views(data@), id@, count as nat)
                    == Ok::<_, Malformed>(joint_weights_views(list@)),
                Err(_) => self@.mesh_joint_weights(
                    bind_data_views(data@),
                    id@,
                    count as nat,
                ) is Err,
            },
    {
        let none: Vec<JointWeights> = Vec::new();
        assert(joint_weights_views(none@) =~= Seq::empty());
        let skeletons = match self.read_skeletons() {
            Ok(Some(skeletons)) => skeletons,
            Ok(None) => {
                return Ok(none);
            },
            Err(e) => {
                return Err(e);
            },
        };
        if skeletons.len() == 0 {
            return Err(Malformed {  });
        }
        assert(skeleton_views(skeletons@)[0] == skeletons@[0]@);
        match find_bind_data(data, id) {
            Some(found) => assign_joint_weights(count, found, &skeletons[0].joints),
            None => Ok(none),
        }
    }

    /// Reads the mesh that the given shapes make with the coordinates that their
    /// element refers to.
    pub fn get_object(
        &self,
        mesh_element: &XmlElement,
        shape_element: &XmlElement,
        id: &str,
        shapes: Vec<Shape>,
    ) -> (r: Outcome<Object>)
        ensures
            object_outcome(r) == self@.object(mesh_element@, shape_element@, id@, shapes@),
    {
        let bind_data_set = match self.read_bind_data_set() {
            Ok(Some(set)) => set,
            Ok(None) => {
                return Ok(None);
            },
            Err(e) => {
                return Err(e);
            },
        };
        let positions_array = match self.get_numbers_behind(mesh_element, shape_element, "VERTEX") {
            Ok(Some(numbers)) => numbers,
            Ok(None) => {
                return Ok(None);
            },
            Err(e) => {
                return Err(e);
            },
        };
        if positions_array.len() % 3 != 0 {
            return Err(Malformed {  });
        }
        let positions = make_vertices(&positions_array);
        let normals_array = match self.get_numbers_or_none(mesh_element, shape_element, "NORMAL") {
            Ok(Some(numbers)) => numbers,
            Ok(None) => {
                return Ok(None);
            },
            Err(e) => {
                return Err(e);
            },
        };
        if normals_array.len() % 3 != 0 {
            return Err(Malformed {  });
        }
        let texcoords_array = match self.get_numbers_or_none(mesh_element, shape_element, "TEXCOORD") {
            Ok(Some(numbers)) => numbers,
            Ok(None) => {
                return Ok(None);
            },
            Err(e) => {
                return Err(e);
            },
        };
        if texcoords_array.len() % 2 != 0 {
            return Err(Malformed {  });
        }
        let joint_weights = match self.get_joint_weights(
            &bind_data_set.bind_data,
            id,
            positions.len(),
        ) {
            Ok(list) => list,
            Err(e) => {
                return Err(e);
            },
        };
        let geometry = Geometry { material_name: None, smooth_shading_group: 0, shapes };
        let mut geometries: Vec<Geometry> = Vec::new();
        geometries.push(geometry);
        assert(geometry_views(geometries@) =~= seq![geometry@]);
        Ok(
            Some(
                Object {
                    name: id.to_owned(),
                    vertices: positions,
                    tex_vertices: make_tex_vertices(&texcoords_array),
                    normals: make_normals(&normals_array),
                    joint_weights,
                    geometry: geometries,
                },
            ),
        )
    }

    /// Reads the mesh that a `triangles` element makes.
    fn get_triangles_object(&self, mesh: &XmlElement, holder: &XmlElement, id: &str) -> (r: Outcome<Object>)
        ensures
            object_outcome(r) == self@.triangles_object(mesh@, holder@, id@),
    {
        match self.get_shapes(holder, "triangles") {
            Ok(Some(shapes)) => self.get_object(mesh, holder, id, shapes),
            Ok(None) => Ok(None),
            Err(e) => Err(e),
        }
    }

    /// Reads the meshes that a `geometry` element describes.
    pub fn get_mesh_objects(&self, geometry_element: &XmlElement) -> (r: Outcome<Vec<Object>>)
        ensures
            objects_outcome(r) == self@.mesh_objects(geometry_element@),
    {
        let id = match geometry_element.get_attribute("id", None) {
            Some(id) => id,
            None => {
                return Ok(None);
            },
        };
        let mesh = match geometry_element.get_child("mesh", self.get_ns()) {
            Some(mesh) => mesh,
            None => {
                return Ok(None);
            },
        };
        let elements = mesh.get_children("triangles", self.get_ns());
        let ghost all = element_views(elements@);
        let mut out: Vec<Object> = Vec::new();
        assert(object_views(out@) =~= Seq::empty());
        let mut i: usize = 0;
        while i < elements.len()
            invariant
                i <= elements@.len(),
                all == element_views(elements@),
                self@.mesh_objects(geometry_element@) == (match self@.objects_among(mesh@, all, id@) {
                    Ok(list) => Ok::<Option<Seq<ObjectView>>, Malformed>(Some(list)),
                    Err(e) => Err(e),
                }),
                self@.objects_among(mesh@, all.take(i as int), id@) == Ok::<_, Malformed>(
                    object_views(out@),
                ),
            decreases elements.len() - i,
        {
            let ghost held = object_views(out@);
            assert(all.take(i + 1).drop_last() =~= all.take(i as int));
            assert(all.take(i + 1).last() == elements@[i as int]@);
            match self.get_triangles_object(mesh, elements[i], id) {
                Ok(Some(object)) => {
                    out.push(object);
                    assert(object_views(out@) =~= held.push(object@));
                },
                Ok(None) => {},
                Err(e) => {
                    proof {
                        lemma_objects_malformed(self@, mesh@, all, id@, i + 1);
                    }
                    return Err(e);
                },
            }
            i = i + 1;
        }
        assert(all.take(all.len() as int) =~= all);
        Ok(Some(out))
    }

    /// Reads all the meshes of the document.
    pub fn read_obj_set(&self) -> (r: Outcome<ObjSet>)
        ensures
            obj_set_outcome(r) == self@.obj_set(),
    {
        let library = match self.root_element.get_child("library_geometries", self.get_ns()) {
            Some(library) => library,
            None => {
                return Ok(None);
            },
        };
        let elements = library.get_children("geometry", self.get_ns());
        let ghost all = element_views(elements@);
        let mut out: Vec<Object> = Vec::new();
        assert(object_views(out@) =~= Seq::empty());
        let mut i: usize = 0;
        while i < elements.len()
            invariant
                i <= elements@.len(),
                all == element_views(elements@),
                self@.obj_set() == (match self@.all_objects(all) {
                    Ok(objects) => Ok::<_, Malformed>(
                        Some(ObjSetView { material_library: None, objects }),
                    ),
                    Err(e) => Err(e),
                }),
                self@.all_objects(all.take(i as int)) == Ok::<_, Malformed>(object_views(out@)),
            decreases elements.len() - i,
        {
            let ghost held = object_views(out@);
            assert(all.take(i + 1).drop_last() =~= all.take(i as int));
            assert(all.take(i + 1).last() == elements@[i as int]@);
            match self.get_mesh_objects(elements[i]) {
                Ok(Some(objects)) => {
                    let mut more = objects;
                    let ghost added = object_views(more@);
                    out.append(&mut more);
                    assert(object_views(out@) =~= held + added);
                },
                Ok(None) => {},
                Err(e) => {
                    proof {
                        lemma_all_objects_malformed(self@, all, i + 1);
                    }
                    return Err(e);
                },
            }
            i = i + 1;
        }
        assert(all.take(all.len() as int) =~= all);
        Ok(Some(ObjSet { material_library: None, objects: out }))
    }

    /// Populates and returns an `ObjSet` for the meshes of the document.
    pub fn get_obj_set(&self) -> (r: Option<ObjSet>)
        requires
            self@.obj_set() is Ok,
        ensures
            match r {
                Some(set) => self@.obj_set() == Ok::<_, Malformed>(Some(set@)),
                None => self@.obj_set() == Ok::<Option<ObjSetView>, Malformed>(None),
            },
    {
        match self.read_obj_set() {
            Ok(r) => r,
            Err(_) => None,
        }
    }
}

} // verus!
