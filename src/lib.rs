//! Catalog of local Blender installations, project files, launch arguments
//! and scripts: the entity store, the default-flag rules, discovery and
//! launch planning, each with its contract.

pub mod model;
pub mod table;
pub mod error;
pub mod defaults;
pub mod text;
pub mod discovery;
pub mod roots;
pub mod launch;
pub mod builds;
pub mod project_files;
pub mod arguments;
pub mod listing;
pub mod feed;
pub mod clock;
pub mod repository;
