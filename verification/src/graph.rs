//! Presentation of the commit graph.
pub mod colors;
