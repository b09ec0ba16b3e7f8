use maskerad_resource_manager::resource_manager_errors::ResourceManagerError;
use maskerad_resource_manager::resources::refcount_registry::RefCountRegistry;

#[test]
fn new_table_tracks_nothing() {
    let table = RefCountRegistry::new();
    assert_eq!(table.len(), 0);
    assert!(table.iter().is_empty());
    assert!(table.keys().is_empty());
    assert!(!table.has_refcount("a.gltf"));
}

#[test]
fn add_refcount_tracks_with_one_consumer() {
    let mut table = RefCountRegistry::new();
    assert!(table.add_refcount("a.gltf").is_ok());
    assert!(table.has_refcount("a.gltf"));
    assert!(!table.has_refcount("a.gltf "));
    assert!(!table.has_refcount("A.gltf"));
    assert_eq!(table.get_refcount_of("a.gltf").unwrap(), 1);
    assert_eq!(table.len(), 1);
}

#[test]
fn add_refcount_refuses_a_tracked_path() {
    let mut table = RefCountRegistry::new();
    assert!(table.add_refcount("a.gltf").is_ok());
    assert!(table.increment_refcount_of("a.gltf").is_ok());
    match table.add_refcount("a.gltf") {
        Err(ResourceManagerError::AlreadyTracked(text)) => assert_eq!(
            text,
            "The resource at path a.gltf has a refcount in the refcount registry already !"
        ),
        _ => panic!("a tracked path must not be tracked anew"),
    }
    assert_eq!(table.get_refcount_of("a.gltf").unwrap(), 2);
    assert_eq!(table.len(), 1);
}

#[test]
fn get_refcount_of_an_untracked_path_is_not_found() {
    let table = RefCountRegistry::new();
    match table.get_refcount_of("levels/one.tga") {
        Err(error) => {
            assert!(matches!(error, ResourceManagerError::NotFoundError(_)));
            assert_eq!(error.description(), "NotFoundError");
            assert_eq!(
                error.message(),
                "Not found error: Could not get the refcount of the resource at path levels/one.tga in the refcount registry !"
            );
        },
        Ok(_) => panic!("an untracked path has no count"),
    }
}

#[test]
fn increment_raises_by_one_and_needs_a_tracked_path() {
    let mut table = RefCountRegistry::new();
    match table.increment_refcount_of("a") {
        Err(ResourceManagerError::NotFoundError(text)) => assert_eq!(
            text,
            "Could not get the refcount of the resource at path a in the refcount registry and increment it !"
        ),
        _ => panic!("an untracked path cannot gain a consumer"),
    }
    assert_eq!(table.len(), 0);
    assert!(table.add_refcount("a").is_ok());
    assert!(table.add_refcount("b").is_ok());
    assert!(table.increment_refcount_of("a").is_ok());
    assert!(table.increment_refcount_of("a").is_ok());
    assert_eq!(table.get_refcount_of("a").unwrap(), 3);
    assert_eq!(table.get_refcount_of("b").unwrap(), 1);
}

#[test]
fn decrement_lowers_by_one_and_stops_at_zero() {
    let mut table = RefCountRegistry::new();
    assert!(table.add_refcount("a").is_ok());
    assert!(table.add_refcount("b").is_ok());
    assert!(table.increment_refcount_of("a").is_ok());
    assert!(table.decrement_refcount_of("a").is_ok());
    assert_eq!(table.get_refcount_of("a").unwrap(), 1);
    assert!(table.decrement_refcount_of("a").is_ok());
    assert_eq!(table.get_refcount_of("a").unwrap(), 0);
    match table.decrement_refcount_of("a") {
        Err(error) => {
            assert!(matches!(error, ResourceManagerError::UnderflowError(_)));
            assert_eq!(error.description(), "UnderflowError");
            assert_eq!(
                error.message(),
                "Underflow error: Could not decrement the refcount of the resource at path a in the refcount registry: it is zero already !"
            );
        },
        Ok(_) => panic!("a count of zero cannot go down"),
    }
    assert_eq!(table.get_refcount_of("a").unwrap(), 0);
    assert_eq!(table.get_refcount_of("b").unwrap(), 1);
    assert!(table.has_refcount("a"));
}

#[test]
fn decrement_of_an_untracked_path_is_not_found() {
    let mut table = RefCountRegistry::new();
    assert!(table.add_refcount("a").is_ok());
    match table.decrement_refcount_of("b") {
        Err(ResourceManagerError::NotFoundError(text)) => assert_eq!(
            text,
            "Could not get the refcount of the resource at path b in the refcount registry and decrement it !"
        ),
        _ => panic!("an untracked path cannot lose a consumer"),
    }
    assert_eq!(table.iter(), vec![("a".to_string(), 1)]);
}

#[test]
fn iteration_follows_the_order_of_tracking() {
    let mut table = RefCountRegistry::new();
    for path in ["z.ogg", "a.tga", "m.gltf"].iter() {
        assert!(table.add_refcount(path).is_ok());
    }
    assert!(table.increment_refcount_of("a.tga").is_ok());
    assert_eq!(
        table.iter(),
        vec![("z.ogg".to_string(), 1), ("a.tga".to_string(), 2), ("m.gltf".to_string(), 1)]
    );
    assert_eq!(table.keys(), vec!["z.ogg".to_string(), "a.tga".to_string(), "m.gltf".to_string()]);
    assert_eq!(table.path_at(1), "a.tga");
    assert_eq!(table.count_at(1), 2);
    assert_eq!(table.path_at(2), "m.gltf");
    assert_eq!(table.count_at(2), 1);
}

#[test]
fn remove_refcount_hands_back_the_count_and_keeps_the_order() {
    let mut table = RefCountRegistry::new();
    for path in ["a", "b", "c", "d"].iter() {
        assert!(table.add_refcount(path).is_ok());
    }
    assert!(table.increment_refcount_of("b").is_ok());
    assert_eq!(table.remove_refcount("b"), Some(2));
    assert_eq!(table.remove_refcount("b"), None);
    assert_eq!(table.remove_refcount("zz"), None);
    assert_eq!(table.keys(), vec!["a".to_string(), "c".to_string(), "d".to_string()]);
    assert_eq!(table.remove_refcount("a"), Some(1));
    assert_eq!(table.remove_refcount("d"), Some(1));
    assert_eq!(table.iter(), vec![("c".to_string(), 1)]);
    // A path that left the table can be tracked again, as the newest.
    assert!(table.add_refcount("a").is_ok());
    assert_eq!(table.keys(), vec!["c".to_string(), "a".to_string()]);
}

#[test]
fn increment_stops_at_the_highest_count() {
    let mut table = RefCountRegistry::new();
    assert!(table.add_refcount("a").is_ok());
    for _ in 0..254 {
        assert!(table.increment_refcount_of("a").is_ok());
    }
    assert_eq!(table.get_refcount_of("a").unwrap(), 255);
    match table.increment_refcount_of("a") {
        Err(ResourceManagerError::OverflowError(text)) => assert_eq!(
            text,
            "Could not increment the refcount of the resource at path a in the refcount registry: it cannot go higher !"
        ),
        _ => panic!("a count of 255 cannot go up"),
    }
    assert_eq!(table.get_refcount_of("a").unwrap(), 255);
    assert!(table.decrement_refcount_of("a").is_ok());
    assert!(table.increment_refcount_of("a").is_ok());
    assert_eq!(table.get_refcount_of("a").unwrap(), 255);
}
