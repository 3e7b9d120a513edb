use ministore::bucket::Bucket;

#[test]
fn validator_length_bounds() {
    // shortest and longest allowed lengths
    assert!(Bucket::validate_name("abc"));
    assert!(Bucket::validate_name("ab1"));
    let longest = "a".repeat(63);
    assert!(Bucket::validate_name(longest.as_str()));
    let too_long = "a".repeat(64);
    assert!(!Bucket::validate_name(too_long.as_str()));
    assert!(!Bucket::validate_name("ab"));
}

#[test]
fn validator_character_rules() {
    assert!(!Bucket::validate_name("My-Bucket"), "uppercase is rejected");
    assert!(!Bucket::validate_name("my_bucket"), "underscore is rejected");
    assert!(!Bucket::validate_name("my bucket"), "space is rejected");
    assert!(!Bucket::validate_name("bücket"), "non-ASCII is rejected");
    assert!(!Bucket::validate_name(".abc"), "leading dot is rejected");
    assert!(!Bucket::validate_name("abc."), "trailing dot is rejected");
}

#[test]
fn validator_dotted_quad_rules() {
    // exactly four octet parts: rejected
    assert!(!Bucket::validate_name("0.0.0.0"));
    assert!(!Bucket::validate_name("255.255.255.255"));
    // leading zeros still parse as octets
    assert!(!Bucket::validate_name("010.001.002.003"));
    // a part above 255 is not an octet, so the name stands
    assert!(Bucket::validate_name("256.1.1.1"));
    assert!(Bucket::validate_name("1.2.3.4444"));
    // not exactly four parts: the quad rule does not apply
    assert!(Bucket::validate_name("1.2.3"));
    assert!(Bucket::validate_name("1.2.3.4.5"));
    // all digits but no dots at all
    assert!(Bucket::validate_name("123"));
    // a non-numeric part disarms the rule
    assert!(Bucket::validate_name("1.2.3.x4"));
}

#[test]
fn validator_identifier_length() {
    // identifiers come from the random identifier scheme: 36 characters
    let bucket = Bucket::new("my-bucket".to_string());
    assert_eq!(bucket.id.len(), 36);
    let other = Bucket::new("my-bucket".to_string());
    assert_eq!(other.id.len(), 36);
    assert_ne!(bucket.id, other.id);
}
