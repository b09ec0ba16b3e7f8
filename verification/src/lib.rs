pub mod formats;
pub mod laws;
pub mod lifecycle;
pub mod properties;
pub mod resource_file;
pub mod resource_kind;
pub mod resource_manager;
pub mod resource_manager_errors;
pub mod resource_manager_trait;
pub mod resources;
pub mod text;
