//! COLLADA documents: their animations, their skins and skeletons, and their
//! meshes.
//!
//! A [`ColladaDocument`] is made of the text of a file. What it holds is read off
//! the tree of its elements: `get_animations`, `get_bind_data_set`,
//! `get_skeletons` and `get_obj_set` return it, or nothing where the document has
//! no such thing. A document can be broken in a way that leaves no sensible
//! answer, such as an index into a list that is too short. The functions whose
//! names begin with `read_` tell so; the others are for documents that are not.
//!
//! Real numbers are carried as the bit patterns of their values. Which value a
//! numeral has is entered with `define_numeral`, for the words that `get_words`
//! lists.

use vstd::prelude::*;

pub mod animation;
pub mod binding;
pub mod chunks;
pub mod document;
pub mod element;
pub mod laws;
pub mod loading;
pub mod mesh;
pub mod number;
pub mod obj;
pub mod shapes;
pub mod skeleton;
pub mod skin;
pub mod text;
pub mod traversal;
pub mod xml_tree;

pub use crate::document::{ColladaDocument, Malformed, Outcome};
pub use crate::loading::LoadError;
pub use crate::skin::{Animation, BindData, BindDataSet, Joint, JointIndex, Skeleton, VertexWeight};
pub use crate::skin::ROOT_JOINT_PARENT_INDEX;

verus! {

} // verus!
