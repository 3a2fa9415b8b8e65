use ugoite_core::storage::{space_id_from_entry, storage_type_and_root};

fn triple(uri: &str) -> (String, String, String) {
    storage_type_and_root(uri)
}

#[test]
fn local_uris_are_local() {
    assert_eq!(
        triple("file:///tmp/data"),
        ("local".to_string(), "/tmp/data".to_string(), "file".to_string())
    );
    assert_eq!(
        triple("fs:///srv/x"),
        ("local".to_string(), "/srv/x".to_string(), "fs".to_string())
    );
}

#[test]
fn remote_uris_keep_scheme() {
    assert_eq!(
        triple("s3://bucket/some/prefix"),
        ("s3".to_string(), "some/prefix".to_string(), "s3".to_string())
    );
    assert_eq!(
        triple("memory:///"),
        ("memory".to_string(), "".to_string(), "memory".to_string())
    );
}

#[test]
fn plain_paths_are_local_files() {
    assert_eq!(
        triple("relative/dir"),
        ("local".to_string(), "relative/dir".to_string(), "file".to_string())
    );
}

#[test]
fn space_names_from_entries() {
    assert_eq!(space_id_from_entry("spaces/alpha/").as_deref(), Some("alpha"));
    assert_eq!(space_id_from_entry("beta//").as_deref(), Some("beta"));
    assert_eq!(space_id_from_entry("gamma").as_deref(), Some("gamma"));
    assert_eq!(space_id_from_entry("///"), None);
    assert_eq!(space_id_from_entry(""), None);
}
