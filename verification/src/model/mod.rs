//! The values that a document is made of.

pub mod document;
pub mod link;
pub mod relationship;
pub mod resource;
