use maskerad_resource_manager::formats::declares_glb_length_below_header;
use maskerad_resource_manager::properties::property_manager_error::PropertyManagerError;
use maskerad_resource_manager::resource_file::{find_file, FileContent, ResourceFile};
use maskerad_resource_manager::resource_kind::{
    extension, extension_dot, trim_separators, ResourceKind,
};
use maskerad_resource_manager::resource_manager_errors::{frame, ResourceManagerError};
use maskerad_resource_manager::text::{contains_path, distinct_paths};

#[test]
fn extension_is_the_text_after_the_last_dot_of_the_last_component() {
    assert_eq!(extension("a.gltf"), Some("gltf"));
    assert_eq!(extension("models/npc/knight.v2.tga"), Some("tga"));
    assert_eq!(extension("models.d/knight"), None);
    assert_eq!(extension("models.d/knight.ogg"), Some("ogg"));
    assert_eq!(extension("knight."), Some(""));
    assert_eq!(extension("knight"), None);
    assert_eq!(extension(""), None);
    assert_eq!(extension("dir/"), None);
}

#[test]
fn separators_at_the_end_are_ignored() {
    assert_eq!(trim_separators("a.tga/"), "a.tga");
    assert_eq!(trim_separators("a/b///"), "a/b");
    assert_eq!(trim_separators("a/b"), "a/b");
    assert_eq!(trim_separators("///"), "");
    assert_eq!(trim_separators(""), "");
    assert_eq!(extension("a.tga/"), Some("tga"));
    assert_eq!(extension("models/knight.gltf//"), Some("gltf"));
    assert_eq!(extension("models.d/"), Some("d"));
    assert_eq!(extension("/"), None);
    assert_eq!(ResourceKind::of_path("a.gltf/"), Some(ResourceKind::Gltf));
    assert_eq!(ResourceKind::of_path("music.ogg///"), Some(ResourceKind::Ogg));
}

#[test]
fn a_leading_dot_starts_no_extension() {
    assert_eq!(extension(".gltf"), None);
    assert_eq!(extension("dir/.gltf"), None);
    assert_eq!(extension("dir/.hidden.gltf"), Some("gltf"));
    assert_eq!(extension("..gltf"), Some("gltf"));
    assert_eq!(extension_dot(".gltf"), None);
    assert_eq!(extension_dot("dir/.hidden.gltf"), Some(11));
}

#[test]
fn extension_dot_counts_characters_not_bytes() {
    assert_eq!(extension_dot("h\u{e9}ros.tga"), Some(5));
    assert_eq!(extension("h\u{e9}ros.tga"), Some("tga"));
    assert_eq!(extension("niveau.\u{e9}t\u{e9}"), Some("\u{e9}t\u{e9}"));
}

#[test]
fn kinds_are_named_by_lower_case_extensions() {
    assert_eq!(ResourceKind::from_extension("gltf"), Some(ResourceKind::Gltf));
    assert_eq!(ResourceKind::from_extension("ogg"), Some(ResourceKind::Ogg));
    assert_eq!(ResourceKind::from_extension("tga"), Some(ResourceKind::Tga));
    assert_eq!(ResourceKind::from_extension("GLTF"), None);
    assert_eq!(ResourceKind::from_extension("glb"), None);
    assert_eq!(ResourceKind::from_extension("flac"), None);
    assert_eq!(ResourceKind::from_extension(""), None);
    assert_eq!(ResourceKind::from_extension("tga "), None);
}

#[test]
fn kind_of_a_path_goes_by_its_extension() {
    assert_eq!(ResourceKind::of_path("a/b/c.gltf"), Some(ResourceKind::Gltf));
    assert_eq!(ResourceKind::of_path("a/b.ogg/c"), None);
    assert_eq!(ResourceKind::of_path("music.ogg"), Some(ResourceKind::Ogg));
    assert_eq!(ResourceKind::of_path("gltf"), None);
    assert_eq!(ResourceKind::of_path(".tga"), None);
    assert_eq!(ResourceKind::of_path("skin.gltf.tga"), Some(ResourceKind::Tga));
}

#[test]
fn binary_gltf_length_check_reads_the_header() {
    let mut header = b"glTF".to_vec();
    header.extend_from_slice(&[2, 0, 0, 0, 11, 0, 0, 0]);
    assert!(declares_glb_length_below_header(&header));
    header[8] = 12;
    assert!(!declares_glb_length_below_header(&header));
    header[8] = 0;
    assert!(declares_glb_length_below_header(&header));
    header[9] = 1;
    assert!(!declares_glb_length_below_header(&header));
    header[9] = 0;
    header[10] = 1;
    assert!(!declares_glb_length_below_header(&header));
    header[10] = 0;
    header[11] = 1;
    assert!(!declares_glb_length_below_header(&header));
    header[11] = 0;
    header[0] = b'G';
    assert!(!declares_glb_length_below_header(&header));
    header[0] = b'g';
    assert!(!declares_glb_length_below_header(&header[0..11]));
    assert!(!declares_glb_length_below_header(b"{\"asset\":{\"version\":\"2.0\"}}"));
    assert!(!declares_glb_length_below_header(&[]));
}

#[test]
fn find_file_gives_the_first_file_for_a_path() {
    let files = vec![
        ResourceFile { path: "a".to_string(), content: Ok(FileContent::Bytes(vec![1])) },
        ResourceFile { path: "b".to_string(), content: Err("locked".to_string()) },
        ResourceFile { path: "a".to_string(), content: Ok(FileContent::Bytes(vec![2])) },
    ];
    match &find_file(&files, "a").unwrap().content {
        Ok(FileContent::Bytes(bytes)) => assert_eq!(bytes, &vec![1]),
        _ => panic!("the first file for the path holds one byte"),
    }
    match &find_file(&files, "b").unwrap().content {
        Err(report) => assert_eq!(report, "locked"),
        Ok(_) => panic!("the file for the path holds a report"),
    }
    assert!(find_file(&files, "c").is_none());
    assert!(find_file(&Vec::new(), "a").is_none());
}

#[test]
fn lists_of_paths_are_searched_and_thinned() {
    let list: Vec<String> = ["b", "a", "b", "c", "a", "b"].iter().map(|p| p.to_string()).collect();
    assert!(contains_path(&list, "c"));
    assert!(!contains_path(&list, "d"));
    assert!(!contains_path(&list, ""));
    assert!(!contains_path(&Vec::new(), "a"));
    assert_eq!(distinct_paths(&list), vec!["b".to_string(), "a".to_string(), "c".to_string()]);
    assert!(distinct_paths(&Vec::new()).is_empty());
}

#[test]
fn messages_are_built_from_heading_and_description() {
    assert_eq!(frame("The path ", "a/b", " is not valid !"), "The path a/b is not valid !");
    assert_eq!(frame("", "", ""), "");
    let errors = vec![
        (
            ResourceManagerError::FilesystemError("one".to_string(), "cause".to_string()),
            "FilesystemError",
            "Filesystem error: one",
        ),
        (
            ResourceManagerError::UnsupportedKind("two".to_string()),
            "UnsupportedKind",
            "Unsupported kind error: two",
        ),
        (
            ResourceManagerError::NotFoundError("three".to_string()),
            "NotFoundError",
            "Not found error: three",
        ),
        (
            ResourceManagerError::UnderflowError("four".to_string()),
            "UnderflowError",
            "Underflow error: four",
        ),
        (
            ResourceManagerError::AlreadyTracked("five".to_string()),
            "AlreadyTracked",
            "Already tracked error: five",
        ),
        (
            ResourceManagerError::OverflowError("six".to_string()),
            "OverflowError",
            "Overflow error: six",
        ),
    ];
    for (error, description, message) in errors.iter() {
        assert_eq!(error.description(), *description);
        assert_eq!(error.message(), *message);
        assert_eq!(error.cause().is_some(), *description == "FilesystemError");
    }
}

#[test]
fn property_errors_name_their_registry() {
    let transform = PropertyManagerError::TransformError("no transform for npc_1".to_string());
    assert_eq!(transform.description(), "TransformError");
    assert_eq!(transform.message(), "Transform registry error: no transform for npc_1");
    let mesh = PropertyManagerError::MeshError("no mesh for npc_1".to_string());
    assert_eq!(mesh.description(), "MeshError");
    assert_eq!(mesh.message(), "Mesh registry error: no mesh for npc_1");
    assert_eq!(PropertyManagerError::MeshError(String::new()).message(), "Mesh registry error: ");
}
