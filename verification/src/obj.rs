//! Meshes.

use vstd::prelude::*;

use crate::number::Number;

verus! {

/// A point of a mesh.
#[derive(Clone, Copy, PartialEq, Eq, Structural, Debug)]
pub struct Vertex {
    pub x: Number,
    pub y: Number,
    pub z: Number,
}

/// A direction that a mesh faces at a point.
#[derive(Clone, Copy, PartialEq, Eq, Structural, Debug)]
pub struct Normal {
    pub x: Number,
    pub y: Number,
    pub z: Number,
}

/// A point of a texture.
#[derive(Clone, Copy, PartialEq, Eq, Structural, Debug)]
pub struct TVertex {
    pub x: Number,
    pub y: Number,
}

/// A corner of a shape: places in the lists of vertices, of texture vertices
/// and of normals.
pub type VTNIndex = (usize, Option<usize>, Option<usize>);

/// A piece of a mesh.
#[derive(Clone, Copy, PartialEq, Eq, Debug)]
pub enum Shape {
    Point(VTNIndex),
    Line(VTNIndex, VTNIndex),
    Triangle(VTNIndex, VTNIndex, VTNIndex),
}

/// The joints that move a vertex, as places in the list of a skeleton's joints,
/// and how much each of them does. A slot whose weight is zero is free.
#[derive(Clone, Copy, PartialEq, Eq, Debug)]
pub struct JointWeights {
    pub joints: [usize; 4],
    pub weights: [Number; 4],
}

/// What joint weights are, as plain values.
#[verifier::ext_equal]
pub ghost struct JointWeightsView {
    pub joints: Seq<usize>,
    pub weights: Seq<Number>,
}

impl View for JointWeights {
    type V = JointWeightsView;

    open spec fn view(&self) -> JointWeightsView {
        JointWeightsView { joints: self.joints@, weights: self.weights@ }
    }
}

/// What each of a list of joint weights is.
pub open spec fn joint_weights_views(list: Seq<JointWeights>) -> Seq<JointWeightsView> {
    Seq::new(list.len(), |i: int| list[i]@)
}

/// Shapes of one material.
pub struct Geometry {
    pub material_name: Option<String>,
    pub smooth_shading_group: usize,
    pub shapes: Vec<Shape>,
}

/// What geometry is, as plain values.
#[verifier::ext_equal]
pub ghost struct GeometryView {
    pub material_name: Option<Seq<char>>,
    pub smooth_shading_group: usize,
    pub shapes: Seq<Shape>,
}

impl View for Geometry {
    type V = GeometryView;

    open spec fn view(&self) -> GeometryView {
        GeometryView {
            material_name: match self.material_name {
                Some(s) => Some(s@),
                None => None,
            },
            smooth_shading_group: self.smooth_shading_group,
            shapes: self.shapes@,
        }
    }
}

/// What each of a list of geometry is.
pub open spec fn geometry_views(list: Seq<Geometry>) -> Seq<GeometryView> {
    Seq::new(list.len(), |i: int| list[i]@)
}

/// A mesh.
pub struct Object {
    pub name: String,
    pub vertices: Vec<Vertex>,
    pub tex_vertices: Vec<TVertex>,
    pub normals: Vec<Normal>,
    pub joint_weights: Vec<JointWeights>,
    pub geometry: Vec<Geometry>,
}

/// What a mesh is, as plain values.
#[verifier::ext_equal]
pub ghost struct ObjectView {
    pub name: Seq<char>,
    pub vertices: Seq<Vertex>,
    pub tex_vertices: Seq<TVertex>,
    pub normals: Seq<Normal>,
    pub joint_weights: Seq<JointWeightsView>,
    pub geometry: Seq<GeometryView>,
}

impl View for Object {
    type V = ObjectView;

    open spec fn view(&self) -> ObjectView {
        ObjectView {
            name: self.name@,
            vertices: self.vertices@,
            tex_vertices: self.tex_vertices@,
            normals: self.normals@,
            joint_weights: joint_weights_views(self.joint_weights@),
            geometry: geometry_views(self.geometry@),
        }
    }
}

/// What each of a list of meshes is.
pub open spec fn object_views(list: Seq<Object>) -> Seq<ObjectView> {
    Seq::new(list.len(), |i: int| list[i]@)
}

/// The meshes of a document.
pub struct ObjSet {
    pub material_library: Option<String>,
    pub objects: Vec<Object>,
}

/// What a set of meshes is, as plain values.
#[verifier::ext_equal]
pub ghost struct ObjSetView {
    pub material_library: Option<Seq<char>>,
    pub objects: Seq<ObjectView>,
}

impl View for ObjSet {
    type V = ObjSetView;

    open spec fn view(&self) -> ObjSetView {
        ObjSetView {
            material_library: match self.material_library {
                Some(s) => Some(s@),
                None => None,
            },
            objects: object_views(self.objects@),
        }
    }
}

} // verus!
