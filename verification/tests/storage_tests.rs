use chatvault::storage::{normalize_prefix, object_key, safe_join, StorageError};

#[test]
fn prefixes_are_normalized() {
    assert_eq!(normalize_prefix(""), "");
    assert_eq!(normalize_prefix("///"), "");
    assert_eq!(normalize_prefix("abc"), "abc/");
    assert_eq!(normalize_prefix("/abc/"), "abc/");
    assert_eq!(normalize_prefix("a/b//"), "a/b/");
}

#[test]
fn law_normalize_prefix_is_idempotent() {
    for p in ["", "/", "abc", "/a/b/", "x//"] {
        let once = normalize_prefix(p);
        assert_eq!(normalize_prefix(&once), once);
    }
}

#[test]
fn object_keys_join_bucket_and_file() {
    assert_eq!(object_key("bucket/", "/chat.txt"), Ok("bucket/chat.txt".to_string()));
    assert_eq!(object_key("", "a.txt"), Ok("a.txt".to_string()));
    assert_eq!(object_key("/b/", "//dir/x.jpg"), Ok("b/dir/x.jpg".to_string()));
}

#[test]
fn object_keys_with_dot_dot_are_refused() {
    assert_eq!(
        object_key("b", "../x"),
        Err(StorageError::InvalidObjectKey("b/../x".to_string()))
    );
    assert_eq!(
        object_key("b..", "x"),
        Err(StorageError::InvalidObjectKey("b../x".to_string()))
    );
}

#[test]
fn law_object_key_lies_under_its_bucket() {
    let key = object_key("/bucket/", "file.txt").unwrap();
    assert!(key.starts_with(&normalize_prefix("/bucket/")));
}

#[test]
fn safe_join_keeps_relative_keys_under_the_root() {
    assert_eq!(safe_join("/opt/archive", "a/b.txt"), Ok("/opt/archive/a/b.txt".to_string()));
    assert_eq!(safe_join("/opt/archive/", "./a//b/"), Ok("/opt/archive/a/b".to_string()));
    assert_eq!(safe_join("/opt/archive", "a/../../x"), Ok("/opt/archive/a/../../x".to_string()));
}

#[test]
fn safe_join_refuses_absolute_keys_outside_the_root() {
    assert_eq!(safe_join("/opt/archive", "/etc/passwd"), Err(StorageError::PathEscapesRoot));
    assert_eq!(safe_join("/opt/archive", "/opt/archive/x"), Ok("/opt/archive/x".to_string()));
}

#[test]
fn safe_join_with_a_relative_root_joins_it_twice() {
    assert_eq!(safe_join("data", "x"), Ok("data/data/x".to_string()));
}

#[test]
fn law_object_keys_fit_the_filesystem_store() {
    for (bucket, file) in [("b/", "x.txt"), ("", "/a/b"), ("//", "./c"), ("uuid/", "")] {
        let key = object_key(bucket, file).unwrap();
        assert!(safe_join("/opt/chatvault/archive", &key).is_ok(), "{bucket} {file}");
    }
}
