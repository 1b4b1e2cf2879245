use media_store::{Category, MediaStore, StoreError};

fn fresh() -> MediaStore {
    MediaStore::new("/data/app/media".to_string())
}

#[test]
fn import_then_resolve_returns_path_and_content() {
    let mut s = fresh();
    let content: Vec<u8> = vec![1, 2, 3, 4];
    let rel = s
        .import_file("/tmp/pic.png", Some(&content), "Image")
        .expect("import of a valid source must succeed");
    assert_eq!(rel, "Image/pic.png");
    let path = s
        .resolve_file_path("Image", "pic.png")
        .expect("an imported file must resolve");
    assert_eq!(path, "/data/app/media/Image/pic.png");
    let stored = s.file_content("Image", "pic.png").expect("content present");
    assert_eq!(stored, &content);
}

#[test]
fn import_each_valid_category() {
    for cat in ["Image", "Audio", "Video"] {
        let mut s = fresh();
        let content: Vec<u8> = vec![7];
        let rel = s.import_file("/src/clip.bin", Some(&content), cat).unwrap();
        assert_eq!(rel, format!("{}/clip.bin", cat));
        assert!(s.resolve_file_path(cat, "clip.bin").is_ok());
    }
}

#[test]
fn import_invalid_category_fails_and_creates_no_dir() {
    let mut s = fresh();
    let content: Vec<u8> = vec![1];
    let r = s.import_file("/tmp/doc.pdf", Some(&content), "Document");
    assert!(matches!(r, Err(StoreError::InvalidCategory)));
    assert!(!s.has_category_dir("Document"));
    assert!(s.list_files("Document").is_empty());
}

#[test]
fn import_missing_source_fails() {
    let mut s = fresh();
    let r = s.import_file("/tmp/nothing.png", None, "Image");
    match r {
        Err(StoreError::SourceNotFound { path }) => assert_eq!(path, "/tmp/nothing.png"),
        other => panic!("expected SourceNotFound, got {:?}", other),
    }
    assert!(!s.has_category_dir("Image"));
}

#[test]
fn import_path_without_filename_fails() {
    let mut s = fresh();
    let content: Vec<u8> = vec![1];
    let r = s.import_file("/", Some(&content), "Image");
    assert!(matches!(r, Err(StoreError::InvalidFilename)));
    let r2 = s.import_file("/a/..", Some(&content), "Audio");
    assert!(matches!(r2, Err(StoreError::InvalidFilename)));
}

#[test]
fn list_files_before_any_import_is_empty() {
    let s = fresh();
    let listed = s.list_files("Video");
    assert!(listed.is_empty());
}

#[test]
fn list_files_names_every_import_once() {
    let mut s = fresh();
    let a: Vec<u8> = vec![1];
    let b: Vec<u8> = vec![2];
    let c: Vec<u8> = vec![3];
    s.import_file("/x/one.mp4", Some(&a), "Video").unwrap();
    s.import_file("/x/two.mp4", Some(&b), "Video").unwrap();
    s.import_file("/x/song.mp3", Some(&c), "Audio").unwrap();
    let mut listed = s.list_files("Video");
    listed.sort();
    assert_eq!(listed, vec!["one.mp4".to_string(), "two.mp4".to_string()]);
    assert_eq!(s.list_files("Audio"), vec!["song.mp3".to_string()]);
}

#[test]
fn delete_then_resolve_fails() {
    let mut s = fresh();
    let content: Vec<u8> = vec![9, 9];
    s.import_file("/tmp/song.mp3", Some(&content), "Audio").unwrap();
    s.delete_file("Audio", "song.mp3").expect("delete of an imported file succeeds");
    let r = s.resolve_file_path("Audio", "song.mp3");
    match r {
        Err(StoreError::FileNotFound { category, name }) => {
            assert_eq!(category, "Audio");
            assert_eq!(name, "song.mp3");
        }
        other => panic!("expected FileNotFound, got {:?}", other),
    }
}

#[test]
fn delete_never_created_pair_fails_without_side_effect() {
    let mut s = fresh();
    let content: Vec<u8> = vec![5];
    s.import_file("/tmp/keep.png", Some(&content), "Image").unwrap();
    let r = s.delete_file("Image", "other.png");
    assert!(matches!(r, Err(StoreError::FileNotFound { .. })));
    assert!(s.resolve_file_path("Image", "keep.png").is_ok());
    assert_eq!(s.list_files("Image"), vec!["keep.png".to_string()]);
}

#[test]
fn reimport_same_name_overwrites_content() {
    let mut s = fresh();
    let first: Vec<u8> = vec![1, 1, 1];
    let second: Vec<u8> = vec![2, 2];
    s.import_file("/a/pic.png", Some(&first), "Image").unwrap();
    s.import_file("/b/pic.png", Some(&second), "Image").unwrap();
    let stored = s.file_content("Image", "pic.png").unwrap();
    assert_eq!(stored, &second);
    assert_eq!(s.list_files("Image"), vec!["pic.png".to_string()]);
}

#[test]
fn resolve_base_path_is_stable_and_safe_when_empty() {
    let mut s = fresh();
    let first = s.resolve_base_path();
    let second = s.resolve_base_path();
    assert_eq!(first, "/data/app/media");
    assert_eq!(first, second);
    assert!(s.list_files("Image").is_empty());
}

#[test]
fn resolve_file_path_accepts_arbitrary_category_spelling() {
    let s = fresh();
    let r = s.resolve_file_path("Anything", "file.bin");
    assert!(matches!(r, Err(StoreError::FileNotFound { .. })));
}

#[test]
fn same_name_in_different_categories_is_kept_apart() {
    let mut s = fresh();
    let a: Vec<u8> = vec![1];
    let b: Vec<u8> = vec![2];
    s.import_file("/x/clip.dat", Some(&a), "Image").unwrap();
    s.import_file("/y/clip.dat", Some(&b), "Video").unwrap();
    assert_eq!(s.file_content("Image", "clip.dat").unwrap(), &a);
    assert_eq!(s.file_content("Video", "clip.dat").unwrap(), &b);
    s.delete_file("Image", "clip.dat").unwrap();
    assert!(s.file_content("Image", "clip.dat").is_none());
    assert_eq!(s.file_content("Video", "clip.dat").unwrap(), &b);
}

#[test]
fn category_parse_and_name() {
    assert_eq!(Category::parse("Image"), Some(Category::Image));
    assert_eq!(Category::parse("Audio"), Some(Category::Audio));
    assert_eq!(Category::parse("Video"), Some(Category::Video));
    assert_eq!(Category::parse("image"), None);
    assert_eq!(Category::parse(""), None);
    assert_eq!(Category::parse("Document"), None);
    assert_eq!(Category::Image.name(), "Image");
    assert_eq!(Category::Audio.name(), "Audio");
    assert_eq!(Category::Video.name(), "Video");
}
