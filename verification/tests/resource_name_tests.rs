use bache::resource_name::ResourceName;
use bache::errors::Error;

const HASH_A: &str = "a665a45920422f9d417e4867efdc4fb8a04a1f3fff1fa07e998e86f7f7a27ae3";
const UUID_A: &str = "550e8400-e29b-41d4-a716-446655440000";

#[test]
fn blobs_form_parses() {
    let name = format!("main/blobs/{HASH_A}/42");
    let rn = ResourceName::parse(name.as_str()).unwrap();
    assert_eq!(rn.instance_name.as_str(), "main");
    assert!(rn.uuid.is_none());
    assert_eq!(rn.hash.as_str(), HASH_A);
    assert_eq!(rn.size, 42);
}

#[test]
fn uploads_form_parses() {
    let name = format!("main/uploads/{UUID_A}/blobs/{HASH_A}/42");
    let rn = ResourceName::parse(name.as_str()).unwrap();
    assert_eq!(rn.instance_name.as_str(), "main");
    assert_eq!(rn.uuid.as_ref().unwrap().as_str(), UUID_A);
    assert_eq!(rn.hash.as_str(), HASH_A);
    assert_eq!(rn.size, 42);
}

#[test]
fn empty_instance_is_a_valid_tenant() {
    let name = format!("/blobs/{HASH_A}/7");
    let rn = ResourceName::parse(name.as_str()).unwrap();
    assert_eq!(rn.instance_name.as_str(), "");
    assert_eq!(rn.size, 7);
}

#[test]
fn missing_segment_fails() {
    let name = format!("main/blobs/{HASH_A}");
    assert!(matches!(
        ResourceName::parse(name.as_str()),
        Err(Error::InvalidResourceName(_))
    ));
}

#[test]
fn extra_segment_fails() {
    let name = format!("main/blobs/{HASH_A}/42/junk");
    assert!(matches!(
        ResourceName::parse(name.as_str()),
        Err(Error::InvalidResourceName(_))
    ));
}

#[test]
fn malformed_uuid_fails() {
    let name = format!("main/uploads/not-a-uuid/blobs/{HASH_A}/42");
    assert!(matches!(
        ResourceName::parse(name.as_str()),
        Err(Error::InvalidResourceName(_))
    ));
}

#[test]
fn non_blobs_after_uuid_fails() {
    let name = format!("main/uploads/{UUID_A}/objects/{HASH_A}/42");
    assert!(matches!(
        ResourceName::parse(name.as_str()),
        Err(Error::InvalidResourceName(_))
    ));
}

#[test]
fn non_numeric_size_fails() {
    let name = format!("main/blobs/{HASH_A}/big");
    assert!(matches!(
        ResourceName::parse(name.as_str()),
        Err(Error::InvalidResourceName(_))
    ));
}

#[test]
fn wrong_keyword_fails() {
    let name = format!("main/objects/{HASH_A}/42");
    assert!(matches!(
        ResourceName::parse(name.as_str()),
        Err(Error::InvalidResourceName(_))
    ));
}

#[test]
fn error_carries_the_original_string() {
    let r = ResourceName::parse("nonsense");
    match r {
        Err(Error::InvalidResourceName(s)) => assert_eq!(s.as_str(), "nonsense"),
        _ => panic!("expected InvalidResourceName"),
    }
}

#[test]
fn decimal_text_round_trips() {
    for n in [0usize, 1, 9, 10, 12345, 909090] {
        let s = bache::resource_name::usize_to_dec(n);
        let name = format!("main/blobs/{HASH_A}/{s}");
        let rn = ResourceName::parse(name.as_str()).unwrap();
        assert_eq!(rn.size, n);
    }
}
