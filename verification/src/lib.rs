//! Core data model for a text-editing backend: text units with computed
//! line breaks and extents, a bounding-box algebra, a position model with a
//! packed ordering key, an aggregating buffer, and a cursor abstraction.

pub mod buffer;
pub mod cursor;
pub mod text;
