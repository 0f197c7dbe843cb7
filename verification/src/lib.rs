//! Rendering of discussion threads into flat markdown documents.

pub mod fetch;
pub mod heading;
pub mod model;
pub mod render;
pub mod store;
pub mod text;
pub mod transcript;
