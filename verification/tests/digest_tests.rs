use bache::digest::{Digest, DigestInfo};
use bache::errors::{Error, HexError, StatusCode};

const HASH_A: &str = "a665a45920422f9d417e4867efdc4fb8a04a1f3fff1fa07e998e86f7f7a27ae3";

#[test]
fn digest_round_trip_reproduces_hash_and_size() {
    let d = DigestInfo::try_new(HASH_A, 123).unwrap();
    let wire = d.to_wire();
    assert_eq!(wire.hash.as_str(), HASH_A);
    assert_eq!(wire.size_bytes, 123);
}

#[test]
fn digest_round_trip_zero_size() {
    let zero = "0000000000000000000000000000000000000000000000000000000000000000";
    let d = DigestInfo::try_new(zero, 0).unwrap();
    let wire = d.to_wire();
    assert_eq!(wire.hash.as_str(), zero);
    assert_eq!(wire.size_bytes, 0);
}

#[test]
fn digest_uppercase_input_normalizes_to_lowercase() {
    let upper = HASH_A.to_uppercase();
    let d = DigestInfo::try_new(upper.as_str(), 5).unwrap();
    assert_eq!(d.to_wire().hash.as_str(), HASH_A);
}

#[test]
fn try_new_rejects_short_hash() {
    assert!(matches!(
        DigestInfo::try_new("abcd", 1),
        Err(Error::InvalidDigestParts(_))
    ));
}

#[test]
fn try_new_rejects_non_hex() {
    let bad = "g665a45920422f9d417e4867efdc4fb8a04a1f3fff1fa07e998e86f7f7a27ae3";
    assert!(matches!(
        DigestInfo::try_new(bad, 1),
        Err(Error::InvalidDigestParts(_))
    ));
}

#[test]
fn try_from_wire_reports_hex_error_kinds() {
    let odd = Digest { hash: "abc".to_string(), size_bytes: 1 };
    assert!(matches!(
        DigestInfo::try_from_wire(odd),
        Err(Error::InvalidHexString(HexError::OddLength))
    ));

    let wrong_len = Digest { hash: "abcd".to_string(), size_bytes: 1 };
    assert!(matches!(
        DigestInfo::try_from_wire(wrong_len),
        Err(Error::InvalidHexString(HexError::InvalidStringLength))
    ));

    let bad_char = Digest {
        hash: "zz65a45920422f9d417e4867efdc4fb8a04a1f3fff1fa07e998e86f7f7a27ae3".to_string(),
        size_bytes: 1,
    };
    assert!(matches!(
        DigestInfo::try_from_wire(bad_char),
        Err(Error::InvalidHexString(HexError::InvalidHexCharacter('z', 0)))
    ));
}

#[test]
fn try_from_wire_rejects_negative_size() {
    let wire = Digest { hash: HASH_A.to_string(), size_bytes: -1 };
    assert!(matches!(
        DigestInfo::try_from_wire(wire),
        Err(Error::InvalidDigestParts(_))
    ));
}

#[test]
fn hash_text_matches_hex_crate_encoding() {
    let d = DigestInfo::try_new(HASH_A, 9).unwrap();
    assert_eq!(d.hash().as_str(), hex::encode(&d.packed_hash).as_str());
    assert_eq!(d.packed_hash, hex::decode(HASH_A).unwrap());
}

#[test]
fn digest_same_compares_hash_and_size() {
    let a = DigestInfo::try_new(HASH_A, 9).unwrap();
    let b = DigestInfo::try_new(HASH_A, 9).unwrap();
    let c = DigestInfo::try_new(HASH_A, 10).unwrap();
    assert!(a.same(&b));
    assert!(!a.same(&c));
}

#[test]
fn status_codes_follow_the_taxonomy() {
    assert_eq!(
        Error::InvalidHexString(HexError::OddLength).status_code(),
        StatusCode::InvalidArgument
    );
    assert_eq!(
        Error::InvalidHexString(HexError::InvalidStringLength).status_code(),
        StatusCode::Internal
    );
    assert_eq!(
        Error::InvalidResourceName("x".to_string()).status_code(),
        StatusCode::InvalidArgument
    );
    assert_eq!(Error::DigestMismatch.status_code(), StatusCode::InvalidArgument);
    assert_eq!(
        Error::UploadNotFound("u".to_string()).status_code(),
        StatusCode::NotFound
    );
    assert_eq!(
        Error::StoreNotFound(bache::instance_name::InstanceName::new("t".to_string()))
            .status_code(),
        StatusCode::NotFound
    );
    assert_eq!(Error::InvalidRange.status_code(), StatusCode::InvalidArgument);
}
