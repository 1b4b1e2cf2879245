use media_store::{basename, join_path, resolve_root, StoreError};

#[test]
fn basename_plain_file() {
    assert_eq!(basename("file.txt"), Some("file.txt".to_string()));
}

#[test]
fn basename_nested_path() {
    assert_eq!(basename("/home/user/pic.png"), Some("pic.png".to_string()));
    assert_eq!(basename("a/b/c"), Some("c".to_string()));
}

#[test]
fn basename_ignores_trailing_slashes() {
    assert_eq!(basename("a/b/"), Some("b".to_string()));
    assert_eq!(basename("dir///"), Some("dir".to_string()));
}

#[test]
fn basename_of_root_or_empty_is_none() {
    assert_eq!(basename(""), None);
    assert_eq!(basename("/"), None);
    assert_eq!(basename("///"), None);
}

#[test]
fn basename_of_dot_components_is_none() {
    assert_eq!(basename("."), None);
    assert_eq!(basename(".."), None);
    assert_eq!(basename("/a/.."), None);
    assert_eq!(basename("a/."), None);
}

#[test]
fn basename_keeps_dotfiles() {
    assert_eq!(basename("/home/.config"), Some(".config".to_string()));
    assert_eq!(basename("...").as_deref(), Some("..."));
}

#[test]
fn join_path_inserts_single_separator() {
    assert_eq!(join_path("a", "b"), "a/b");
    assert_eq!(join_path("/root", "Image"), "/root/Image");
    assert_eq!(join_path("", "x"), "/x");
}

#[test]
fn resolve_root_appends_media_segment() {
    assert_eq!(
        resolve_root(Some("/home/user/.local/share/app")).unwrap(),
        "/home/user/.local/share/app/media"
    );
}

#[test]
fn resolve_root_without_app_data_dir_fails() {
    let r = resolve_root(None);
    assert!(matches!(r, Err(StoreError::Environment)));
}

#[test]
fn greet_formats_the_greeting() {
    assert_eq!(
        media_store::greet("Ada"),
        "Hello, Ada! You've been greeted from Rust!"
    );
}

#[test]
fn error_messages_read_as_expected() {
    assert_eq!(
        StoreError::InvalidCategory.message(),
        "Invalid subfolder. Must be: Image, Audio, or Video"
    );
    assert_eq!(
        StoreError::Environment.message(),
        "Failed to get app data dir"
    );
    assert_eq!(StoreError::InvalidFilename.message(), "Invalid filename");
    assert_eq!(
        StoreError::SourceNotFound { path: "/tmp/x".to_string() }.message(),
        "Source file does not exist: /tmp/x"
    );
    assert_eq!(
        StoreError::FileNotFound { category: "Image".to_string(), name: "a.png".to_string() }
            .message(),
        "File does not exist: Image/a.png"
    );
    assert_eq!(
        StoreError::StorageIo { detail: "Failed to copy file: disk full".to_string() }.message(),
        "Failed to copy file: disk full"
    );
}
