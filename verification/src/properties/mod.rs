pub mod mesh_registry;
pub mod property_manager_error;
pub mod property_registry;
pub mod transform_registry;
