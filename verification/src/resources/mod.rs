pub mod flac_registry;
pub mod gltf_registry;
pub mod ogg_registry;
pub mod refcount_registry;
pub mod resources_registry;
pub mod tga_registry;
