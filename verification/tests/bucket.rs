use ministore::bucket::Bucket;
use uuid::Uuid;

#[test]
fn test_bucket_creation() {
    let bucket_name = "test-bucket".to_string();
    let bucket = Bucket::new(bucket_name.clone());

    assert_eq!(bucket.name, bucket_name);
    assert!(bucket.id != Uuid::nil().to_string());
}

#[test]
fn test_bucket_clone() {
    let bucket = Bucket::new("test-bucket".to_string());
    let cloned = bucket.clone();

    assert_eq!(bucket.name, cloned.name);
    assert_eq!(bucket.id, cloned.id);
}

#[test]
fn test_bucket_debug() {
    let bucket = Bucket::new("test-bucket".to_string());
    let debug_string = format!("{:?}", bucket);

    assert!(debug_string.contains("test-bucket"));
    assert!(debug_string.contains(&bucket.id));
}

#[test]
fn test_bucket_name_validation() {
    // Valid names
    assert!(Bucket::validate_name("my-bucket"), "my-bucket should be valid");
    assert!(Bucket::validate_name("my.bucket"), "my.bucket should be valid");
    assert!(Bucket::validate_name("mybucket123"), "mybucket123 should be valid");
    assert!(Bucket::validate_name("my-bucket-123"), "my-bucket-123 should be valid");
    assert!(Bucket::validate_name("my.bucket.123"), "my.bucket.123 should be valid");
    assert!(Bucket::validate_name("my-bucket.123"), "my-bucket.123 should be valid");

    // Invalid names
    assert!(!Bucket::validate_name(""), "empty string should be invalid");
    assert!(!Bucket::validate_name("a"), "single character should be invalid");
    assert!(!Bucket::validate_name("a".repeat(64).as_str()), "64+ characters should be invalid");
    assert!(!Bucket::validate_name("-my-bucket"), "starting with hyphen should be invalid");
    assert!(!Bucket::validate_name("my-bucket-"), "ending with hyphen should be invalid");

    // IP address format tests
    assert!(!Bucket::validate_name("192.168.1.1"), "IP address should be invalid");
    assert!(!Bucket::validate_name("10.0.0.0"), "IP address should be invalid");
    assert!(!Bucket::validate_name("172.16.0.0"), "IP address should be invalid");

    // Edge cases
    assert!(Bucket::validate_name("my.bucket.123.456"), "more than 4 parts should be valid");
    assert!(Bucket::validate_name("my-bucket.123.456"), "mixed separators should be valid");
    assert!(Bucket::validate_name("my.bucket-123"), "mixed separators should be valid");
}

#[test]
fn test_bucket_with_name() {
    let mut bucket = Bucket::new("old-name".to_string());
    let new_name = "new-name".to_string();

    bucket = bucket.with_name(new_name.clone());
    assert_eq!(bucket.name, new_name);
}

#[test]
fn test_bucket_is_valid() {
    let valid_bucket = Bucket::new("valid-bucket".to_string());
    assert!(valid_bucket.is_valid());

    // Create a bucket with an invalid name by directly constructing it
    let invalid_bucket = Bucket {
        id: Uuid::new_v4().to_string(),
        name: "-invalid-bucket".to_string(),
    };
    assert!(!invalid_bucket.is_valid());
}

#[test]
fn bucket_test_test_bucket_creation() {
    let bucket_name = "test-bucket".to_string();
    let bucket = Bucket::new(bucket_name.clone());

    assert_eq!(bucket.name, bucket_name);
    assert!(bucket.id != Uuid::nil().to_string());
}

#[test]
fn bucket_test_test_bucket_clone() {
    let bucket = Bucket::new("test-bucket".to_string());
    let cloned = bucket.clone();

    assert_eq!(bucket.name, cloned.name);
    assert_eq!(bucket.id, cloned.id);
}

#[test]
fn bucket_test_test_bucket_debug() {
    let bucket = Bucket::new("test-bucket".to_string());
    let debug_string = format!("{:?}", bucket);

    assert!(debug_string.contains("test-bucket"));
    assert!(debug_string.contains(&bucket.id.to_string()));
}
