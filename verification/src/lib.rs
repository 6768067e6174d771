//! A transport-agnostic engine for JSON:API: entities are filtered, sorted,
//! paged and assembled into compound documents.

pub mod assembler;
pub mod compare;
pub mod decorator;
pub mod entity;
pub mod error;
pub mod model;
pub mod query;
pub mod rule;
pub mod text;
