use maskerad_resource_manager::properties::mesh_registry::MeshRegistry;
use maskerad_resource_manager::properties::property_registry::PropertyRegistry;
use maskerad_resource_manager::properties::transform_registry::TransformRegistry;
use maskerad_resource_manager::resource_manager_errors::ResourceManagerError;
use maskerad_resource_manager::resources::gltf_registry::GltfRegistry;
use maskerad_resource_manager::resources::ogg_registry::OggRegistry;
use maskerad_resource_manager::resources::refcount_registry::RefCountRegistry;
use maskerad_resource_manager::resources::resources_registry::ResourceRegistry;
use maskerad_resource_manager::resources::tga_registry::TgaRegistry;

#[test]
fn mesh_registry_keeps_one_mesh_for_a_game_object() {
    let mut registry: MeshRegistry<String> = MeshRegistry::new();
    assert!(registry.is_empty());
    assert_eq!(registry.insert("npc_1", "knight.gltf".to_string()), None);
    assert_eq!(registry.insert("npc_2", "horse.gltf".to_string()), None);
    assert_eq!(registry.insert("npc_1", "king.gltf".to_string()), Some("knight.gltf".to_string()));
    assert_eq!(registry.get("npc_1"), Some(&"king.gltf".to_string()));
    assert_eq!(registry.get("npc_2"), Some(&"horse.gltf".to_string()));
    assert_eq!(registry.get("npc_3"), None);
    assert!(!registry.is_empty());
    assert_eq!(registry.remove("npc_3"), None);
    assert_eq!(registry.remove("npc_1"), Some("king.gltf".to_string()));
    assert_eq!(registry.remove("npc_1"), None);
    assert_eq!(registry.get("npc_2"), Some(&"horse.gltf".to_string()));
    assert_eq!(registry.remove("npc_2"), Some("horse.gltf".to_string()));
    assert!(registry.is_empty());
}

#[test]
fn transform_registry_keeps_one_transform_for_a_game_object() {
    let mut registry: TransformRegistry<(i32, i32, i32)> = TransformRegistry::new();
    assert!(registry.is_empty());
    assert_eq!(registry.insert("a", (1, 2, 3)), None);
    assert_eq!(registry.insert("b", (4, 5, 6)), None);
    assert_eq!(registry.insert("c", (7, 8, 9)), None);
    assert_eq!(registry.insert("b", (0, 0, 0)), Some((4, 5, 6)));
    assert_eq!(registry.get("a"), Some(&(1, 2, 3)));
    assert_eq!(registry.get("b"), Some(&(0, 0, 0)));
    assert_eq!(registry.get("c"), Some(&(7, 8, 9)));
    assert_eq!(registry.remove("a"), Some((1, 2, 3)));
    assert_eq!(registry.get("a"), None);
    assert_eq!(registry.get("b"), Some(&(0, 0, 0)));
    assert_eq!(registry.get("c"), Some(&(7, 8, 9)));
}

#[test]
fn property_registry_keeps_meshes_and_transforms_apart() {
    let mut registry: PropertyRegistry<(i32, i32), String> = PropertyRegistry::new();
    assert!(registry.is_mesh_empty());
    assert!(registry.is_transform_empty());
    assert_eq!(registry.add_mesh("npc_1", "knight.gltf".to_string()), None);
    assert!(!registry.is_mesh_empty());
    assert!(registry.is_transform_empty());
    assert!(registry.has_mesh("npc_1"));
    assert!(!registry.has_transform("npc_1"));
    assert_eq!(registry.add_transform("npc_1", (3, 4)), None);
    assert_eq!(registry.add_transform("npc_1", (5, 6)), Some((3, 4)));
    assert_eq!(registry.get_transform_of("npc_1").unwrap(), &(5, 6));
    assert_eq!(registry.get_mesh_of("npc_1").unwrap(), "knight.gltf");
    assert_eq!(registry.remove_mesh("npc_1"), Some("knight.gltf".to_string()));
    assert_eq!(registry.remove_mesh("npc_1"), None);
    assert!(registry.has_transform("npc_1"));
    assert_eq!(registry.remove_transfrom("npc_1"), Some((5, 6)));
    assert!(registry.is_mesh_empty());
    assert!(registry.is_transform_empty());
}

#[test]
fn property_registry_reports_what_is_missing() {
    let registry: PropertyRegistry<(i32, i32), String> = PropertyRegistry::new();
    match registry.get_mesh_of("npc_1") {
        Err(ResourceManagerError::NotFoundError(text)) => assert_eq!(
            text,
            "Could not find the mesh linked to the gameobject npc_1 in the mesh registry !"
        ),
        _ => panic!("a game object without mesh must be reported"),
    }
    match registry.get_transform_of("npc_1") {
        Err(ResourceManagerError::NotFoundError(text)) => assert_eq!(
            text,
            "Could not find the transform linked to the gameobject npc_1 in the transform registry !"
        ),
        _ => panic!("a game object without transform must be reported"),
    }
}

#[test]
fn default_registries_are_empty() {
    assert_eq!(RefCountRegistry::default().len(), 0);
    assert!(ResourceRegistry::default().is_empty());
    assert!(GltfRegistry::default().is_empty());
    assert!(OggRegistry::default().is_empty());
    assert!(TgaRegistry::default().is_empty());
    assert!(MeshRegistry::<u8>::default().is_empty());
    assert!(TransformRegistry::<u8>::default().is_empty());
    let properties: PropertyRegistry<u8, u8> = PropertyRegistry::default();
    assert!(properties.is_mesh_empty() && properties.is_transform_empty());
}
