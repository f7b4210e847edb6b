//! What holds of documents and of what is read from them, as laws.

pub mod animations;
pub mod arrays;
pub mod bones;
pub mod influences;
pub mod joints;
pub mod libraries;
pub mod limits;
pub mod lookup;
pub mod meshes;
pub mod numbers;
pub mod numerals;
pub mod shapes;
pub mod skeletons;
pub mod skins;
pub mod source;
pub mod text;
pub mod views;
pub mod walk;
