//! Publishing of a local photo-gallery workspace to an object store:
//! reference collection, thumbnail planning, metadata rewriting, change
//! planning against the remote inventory, and the upload/delete executor.

pub mod artifacts;
pub mod fs_events;
pub mod json;
pub mod paths;
pub mod plan;
pub mod publish;
pub mod rewrite;
pub mod settings;
pub mod tags;
pub mod text;
pub mod thumbnails;
pub mod workspace;
