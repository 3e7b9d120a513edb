use ministore::errors::DomainError;
use ministore::filestore::FileStorage;
use ministore::filestore::check_key;
use ministore::filestore::temp_path_for;

#[test]
fn bucket_paths_live_under_the_root() {
    let fs = FileStorage::new("./s3-data".to_string());
    assert_eq!(fs.bucket_path("my-bucket"), "./s3-data/my-bucket");
}

#[test]
fn object_paths_join_bucket_and_key() {
    let fs = FileStorage::new("./s3-data".to_string());
    let p = fs.object_path("my-bucket", "a/b.txt").unwrap();
    assert_eq!(p, "./s3-data/my-bucket/a/b.txt");
}

#[test]
fn object_paths_reject_escaping_keys() {
    let fs = FileStorage::new("root".to_string());
    for bad in ["../up", "a/../../b", "/etc/passwd", "a//b", ".", ".."] {
        match fs.object_path("b", bad) {
            Err(DomainError::ValidationError(k)) => assert_eq!(k, bad),
            other => panic!("expected ValidationError for {:?}, got {:?}", bad, other),
        }
    }
}

#[test]
fn key_safety_is_decided_per_segment() {
    assert!(check_key("plain"));
    assert!(check_key("nested/path/file.bin"));
    assert!(check_key(".hidden"));
    assert!(check_key("a.b/c..d"));
    assert!(check_key("..."));
    assert!(!check_key(""));
    assert!(!check_key("/lead"));
    assert!(!check_key("trail/"));
    assert!(!check_key("a//b"));
    assert!(!check_key("a/./b"));
    assert!(!check_key("a/../b"));
    assert!(!check_key(".."));
}

#[test]
fn temp_paths_sit_beside_the_target() {
    assert_eq!(temp_path_for("root/b/key"), "root/b/key.tmp");
}
