use ministore::bucket::Bucket;
use ministore::bucket::CreateBucketRequest;
use ministore::errors::DomainError;
use ministore::memory::MemoryStorage;
use ministore::object::Object;
use ministore::store::BucketStorage;
use ministore::store::ObjectStorage;

fn obj(key: &str, content: &[u8]) -> Object {
    Object::new(key.to_string(), content.to_vec(), "application/octet-stream".to_string())
}

#[test]
fn object_new_derives_size() {
    let o = Object::new("k".to_string(), b"hello".to_vec(), "text/plain".to_string());
    assert_eq!(o.key, "k");
    assert_eq!(o.content, b"hello".to_vec());
    assert_eq!(o.content_type, "text/plain");
    assert_eq!(o.size, 5);
    assert_eq!(o.id.len(), 36);
}

#[test]
fn round_trip_put_then_get() {
    let mut s = MemoryStorage::new();
    let content = b"some binary \x00\xff payload".to_vec();
    s.put_object("my-bucket", &obj("a/b.txt", &content)).unwrap();
    let got = s.get_object("my-bucket", "a/b.txt").unwrap();
    assert_eq!(got.content, content);
    assert_eq!(got.key, "a/b.txt");
    assert_eq!(got.size, content.len());
    assert_eq!(got.content_type, "application/octet-stream");
    assert_eq!(got.id.len(), 36);
}

#[test]
fn last_write_wins() {
    let mut s = MemoryStorage::new();
    s.put_object("b-1", &obj("key", b"first")).unwrap();
    s.put_object("b-1", &obj("key", b"second")).unwrap();
    let got = s.get_object("b-1", "key").unwrap();
    assert_eq!(got.content, b"second".to_vec());
    assert_eq!(s.list_objects("b-1").unwrap(), vec!["key".to_string()]);
}

#[test]
fn delete_bucket_is_idempotent() {
    let mut s = MemoryStorage::new();
    let b = Bucket::new("my-bucket".to_string());
    s.create_bucket(&b).unwrap();
    s.put_object("my-bucket", &obj("k", b"v")).unwrap();

    assert_eq!(s.delete_bucket("my-bucket"), Ok(()));
    assert!(!s.list_buckets().unwrap().contains(&"my-bucket".to_string()));
    // second delete reaches the same end state, again without error
    assert_eq!(s.delete_bucket("my-bucket"), Ok(()));
    assert!(!s.list_buckets().unwrap().contains(&"my-bucket".to_string()));
    // the cascade removed the contained objects
    assert!(matches!(s.get_object("my-bucket", "k"), Err(DomainError::ObjectNotFound(_))));
}

#[test]
fn delete_object_is_idempotent() {
    let mut s = MemoryStorage::new();
    s.put_object("b-1", &obj("k", b"v")).unwrap();
    assert_eq!(s.delete_object("b-1", "k"), Ok(()));
    assert_eq!(s.delete_object("b-1", "k"), Ok(()));
    assert!(matches!(s.get_object("b-1", "k"), Err(DomainError::ObjectNotFound(_))));
    // the bucket itself survives object deletion
    assert!(s.list_buckets().unwrap().contains(&"b-1".to_string()));
}

#[test]
fn distinct_keys_all_retrievable() {
    let mut s = MemoryStorage::new();
    let keys = ["k0", "k1", "k2", "k3", "k4"];
    for (n, key) in keys.iter().enumerate() {
        let content = format!("content-{}", n).into_bytes();
        s.put_object("shared", &obj(key, &content)).unwrap();
    }
    for (n, key) in keys.iter().enumerate() {
        let got = s.get_object("shared", key).unwrap();
        assert_eq!(got.content, format!("content-{}", n).into_bytes());
    }
    let mut listed = s.list_objects("shared").unwrap();
    listed.sort();
    assert_eq!(listed, keys.iter().map(|k| k.to_string()).collect::<Vec<_>>());
}

#[test]
fn put_into_absent_bucket_creates_it() {
    let mut s = MemoryStorage::new();
    s.put_object("fresh-bucket", &obj("k", b"v")).unwrap();
    assert!(s.list_buckets().unwrap().contains(&"fresh-bucket".to_string()));
}

#[test]
fn create_bucket_is_idempotent_and_unique() {
    let mut s = MemoryStorage::new();
    let b = Bucket::new("my-bucket".to_string());
    s.create_bucket(&b).unwrap();
    s.create_bucket(&b).unwrap();
    assert_eq!(s.list_buckets().unwrap(), vec!["my-bucket".to_string()]);
}

#[test]
fn create_bucket_rejects_invalid_name() {
    let mut s = MemoryStorage::new();
    let bad = Bucket { id: "irrelevant".to_string(), name: "-bad".to_string() };
    match s.create_bucket(&bad) {
        Err(DomainError::ValidationError(n)) => assert_eq!(n, "-bad"),
        other => panic!("expected ValidationError, got {:?}", other),
    }
    assert_eq!(s.list_buckets().unwrap(), Vec::<String>::new());
}

#[test]
fn put_rejects_traversal_keys() {
    let mut s = MemoryStorage::new();
    for bad in ["../evil", "a/../b", "..", ".", "a//b", "/abs", "trail/", "a/.", ""] {
        match s.put_object("b-1", &obj(bad, b"v")) {
            Err(DomainError::ValidationError(k)) => assert_eq!(k, bad),
            other => panic!("expected ValidationError for {:?}, got {:?}", bad, other),
        }
    }
    // nothing was stored, not even the bucket
    assert_eq!(s.list_buckets().unwrap(), Vec::<String>::new());
    // harmless dots inside segments are fine
    s.put_object("b-1", &obj("a.b/c..d/.hidden", b"v")).unwrap();
}

#[test]
fn missing_lookups_report_not_found() {
    let s = MemoryStorage::new();
    assert!(matches!(s.get_object("nope", "k"), Err(DomainError::ObjectNotFound(k)) if k == "k"));
    assert!(
        matches!(s.list_objects("nope"), Err(DomainError::BucketNotFound(b)) if b == "nope")
    );
}

#[test]
fn scenario_bucket_lifecycle() {
    let mut s = MemoryStorage::new();

    let good = Bucket::try_new("my-bucket".to_string()).unwrap();
    assert_eq!(s.create_bucket(&good), Ok(()));

    assert!(matches!(
        Bucket::try_new("-bad".to_string()),
        Err(DomainError::ValidationError(n)) if n == "-bad"
    ));

    s.put_object("my-bucket", &obj("a/b.txt", b"hello")).unwrap();
    assert_eq!(s.get_object("my-bucket", "a/b.txt").unwrap().content, b"hello".to_vec());

    assert_eq!(s.delete_bucket("my-bucket"), Ok(()));
    assert!(matches!(s.list_objects("my-bucket"), Err(DomainError::BucketNotFound(_))));

    assert!(matches!(
        Bucket::try_new("192.168.1.1".to_string()),
        Err(DomainError::ValidationError(_))
    ));
}

#[test]
fn create_bucket_request_validates() {
    let ok = CreateBucketRequest { name: "my-bucket".to_string() };
    let b = ok.into_bucket().unwrap();
    assert_eq!(b.name, "my-bucket");
    assert_eq!(b.id.len(), 36);

    let bad = CreateBucketRequest { name: "-bad".to_string() };
    assert!(matches!(bad.into_bucket(), Err(DomainError::ValidationError(n)) if n == "-bad"));
}

#[test]
fn error_messages_describe_the_failure() {
    assert_eq!(
        DomainError::ValidationError("-x".to_string()).message(),
        "Invalid bucket name: -x"
    );
    assert_eq!(
        DomainError::BucketNotFound("b".to_string()).message(),
        "Bucket not found: b"
    );
    assert_eq!(
        DomainError::ObjectNotFound("k".to_string()).message(),
        "Object not found: k"
    );
    assert_eq!(
        DomainError::StorageError("disk full".to_string()).message(),
        "Storage error: disk full"
    );
}
