//! Verified core of the Muote desktop quote system: configuration text
//! formats, quote selection and the placement editor's geometry.

pub mod text;
pub mod timer;
pub mod cache;
pub mod digest;
pub mod hashed;
pub mod config;
pub mod color;
pub mod authors;
pub mod selection;
pub mod placement;
pub mod display;
pub mod engyls;
pub mod editor;
