use blend_file_reader::library_link::{LibraryLink, LibraryLinkExtractor};

#[test]
fn test_library_link_extractor_new() {
    let extractor = LibraryLinkExtractor::new("/path/to/file.blend");
    assert_eq!(extractor.blend_file_path, "/path/to/file.blend");
}

#[test]
fn test_resolve_relative_paths() {
    let mut links = vec![
        LibraryLink {
            path: "textures/wood.jpg".to_string(),
            absolute_path: None,
            block_type: "Image".to_string(),
            block_name: None,
            is_relative: true,
        },
        LibraryLink {
            path: "/absolute/path/file.blend".to_string(),
            absolute_path: None,
            block_type: "Library".to_string(),
            block_name: None,
            is_relative: false,
        },
    ];

    let extractor = LibraryLinkExtractor::new("/home/user/project/scene.blend");
    extractor.resolve_relative_paths(&mut links).unwrap();

    assert_eq!(
        links[0].absolute_path,
        Some("/home/user/project/textures/wood.jpg".to_string())
    );
    assert_eq!(links[1].absolute_path, None);
}
