[package]
name = "maskerad_resource_manager"
version = "0.1.0"
edition = "2021"
publish = false

[dependencies]
claxon = "0.4.3"
gltf = { version = "1.4.1", default-features = false }
imagefmt = "4.0.0"
lewton = "0.10.2"
maskerad_memory_allocators = "5.2.0"
maskerad_object_pool = "0.3.0"
