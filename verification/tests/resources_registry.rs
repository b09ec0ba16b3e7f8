use maskerad_resource_manager::resource_kind::ResourceKind;
use maskerad_resource_manager::resource_manager_errors::{DecodeCause, ResourceManagerError};
use maskerad_resource_manager::resources::gltf_registry::GltfRegistry;
use maskerad_resource_manager::resources::resources_registry::ResourceRegistry;
use maskerad_resource_manager::resources::tga_registry::TgaRegistry;
use maskerad_resource_manager::formats::positions_in_range;
use std::rc::Rc;

fn document() -> gltf::Gltf {
    gltf::Gltf::from_slice(b"{\"asset\":{\"version\":\"2.0\"}}").unwrap()
}

fn image(width: usize) -> imagefmt::Image<u8> {
    imagefmt::Image { w: width, h: 1, fmt: imagefmt::ColFmt::Y, buf: vec![0; width] }
}

#[test]
fn a_registry_holds_one_payload_for_a_path() {
    let mut registry = TgaRegistry::new();
    assert!(registry.is_empty());
    assert!(registry.insert("a.tga", Rc::new(image(1))).is_none());
    assert!(!registry.is_empty());
    let replaced = registry.insert("a.tga", Rc::new(image(2))).unwrap();
    assert_eq!(replaced.w, 1);
    assert_eq!(registry.get("a.tga").unwrap().w, 2);
    assert!(registry.get("b.tga").is_none());
    assert!(registry.remove("b.tga").is_none());
    assert_eq!(registry.remove("a.tga").unwrap().w, 2);
    assert!(registry.remove("a.tga").is_none());
    assert!(registry.is_empty());
}

#[test]
fn a_registry_hands_out_the_payload_it_was_given() {
    let mut registry = GltfRegistry::new();
    let handle = Rc::new(document());
    assert!(registry.insert("a.gltf", Rc::clone(&handle)).is_none());
    assert!(Rc::ptr_eq(registry.get("a.gltf").unwrap(), &handle));
    let removed = registry.remove("a.gltf").unwrap();
    assert!(Rc::ptr_eq(&removed, &handle));
    assert!(registry.is_empty());
}

#[test]
fn partitions_are_kept_apart() {
    let mut store = ResourceRegistry::new();
    assert!(store.is_empty());
    assert!(store.add_tga("a", Rc::new(image(1))).is_none());
    assert!(store.add_gltf("b", Rc::new(document())).is_none());
    assert!(store.has_tga("a") && !store.has_gltf("a") && !store.has_ogg("a"));
    assert!(store.has_gltf("b") && !store.has_tga("b") && !store.has_ogg("b"));
    assert!(store.holds(ResourceKind::Tga, "a"));
    assert!(!store.holds(ResourceKind::Gltf, "a"));
    assert!(!store.holds(ResourceKind::Ogg, "a"));
    assert!(store.contains("a") && store.contains("b") && !store.contains("c"));
    assert!(!store.is_tga_empty() && !store.is_gltf_empty() && store.is_ogg_empty());
    assert!(!store.is_empty());
    assert!(store.remove_gltf("a").is_none());
    assert!(store.remove_ogg("a").is_none());
    assert!(store.has_tga("a"));
    store.remove(ResourceKind::Gltf, "b");
    assert!(!store.contains("b"));
    let handle = store.get_tga("a").unwrap();
    assert!(Rc::ptr_eq(&store.remove_tga("a").unwrap(), &handle));
    assert!(store.remove_tga("a").is_none());
    assert!(store.is_empty());
}

#[test]
fn add_hands_back_what_it_replaces() {
    let mut store = ResourceRegistry::new();
    assert!(store.add_tga("a", Rc::new(image(1))).is_none());
    let old = store.add_tga("a", Rc::new(image(3))).unwrap();
    assert_eq!(old.w, 1);
    assert_eq!(store.get_tga("a").unwrap().w, 3);
    let first = store.get_tga("a").unwrap();
    let second = store.get_tga("a").unwrap();
    assert!(Rc::ptr_eq(&first, &second));
}

#[test]
fn decoded_payloads_go_in_and_rejections_come_back() {
    let mut store = ResourceRegistry::new();
    assert!(store.add_decoded_gltf("a.gltf", gltf::Gltf::from_slice(b"{\"asset\":{\"version\":\"2.0\"}}")).is_ok());
    assert!(store.has_gltf("a.gltf"));
    match store.add_decoded_gltf("b.gltf", gltf::Gltf::from_slice(b"{\"asset\":{\"version\":\"2.0\"},\"scene\":5}")) {
        Err(ResourceManagerError::DecodeError(text, DecodeCause::Gltf(gltf::Error::Validation(_)))) => {
            assert_eq!(text, "Error while dealing with a gltf structure.")
        },
        _ => panic!("the validation failure must come back as the cause"),
    }
    assert!(!store.has_gltf("b.gltf"));
    assert!(store.add_decoded_tga("a.tga", Ok(image(4))).is_ok());
    assert_eq!(store.get_tga("a.tga").unwrap().w, 4);
    let rejected = store.add_decoded_tga("b.tga", Err(imagefmt::Error::InvalidData("corrupt")));
    match rejected {
        Err(ResourceManagerError::DecodeError(text, DecodeCause::Tga(imagefmt::Error::InvalidData(reason)))) => {
            assert_eq!(text, "Error while dealing with a tga image.");
            assert_eq!(reason, "corrupt");
        },
        _ => panic!("the decoder's report must come back as the cause"),
    }
    assert!(!store.has_tga("b.tga"));
    let rejected = store.add_decoded_ogg("a.ogg", Err(lewton::VorbisError::BadHeader(lewton::header::HeaderReadError::NotVorbisHeader)));
    match rejected {
        Err(ResourceManagerError::DecodeError(text, DecodeCause::Ogg(_))) => {
            assert_eq!(text, "Error while dealing with an ogg stream.")
        },
        _ => panic!("the decoder's report must come back as the cause"),
    }
    assert!(store.is_ogg_empty());
}

#[test]
fn positions_are_held_against_the_number_of_accessors() {
    assert!(positions_in_range(&vec![], 0));
    assert!(positions_in_range(&vec![None, None], 0));
    assert!(!positions_in_range(&vec![Some(0)], 0));
    assert!(positions_in_range(&vec![Some(0), None, Some(2)], 3));
    assert!(!positions_in_range(&vec![Some(0), None, Some(3)], 3));
    assert!(!positions_in_range(&vec![Some(7), Some(0)], 3));
}
