//! The vintage: the artefact a training run hands to the live system, pinned by a content hash.

pub mod content;
pub mod evidence;
pub mod figure;
pub mod provenance;
pub mod repository;
pub mod schema;
