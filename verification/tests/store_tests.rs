use bache::digest::DigestInfo;
use bache::errors::Error;
use bache::memory::MemoryStore;
use bache::store::Store;
use sha2::Digest as _;

fn digest_for(data: &[u8]) -> DigestInfo {
    let h = sha2::Sha256::digest(data);
    DigestInfo::try_new(hex::encode(h).as_str(), data.len()).unwrap()
}

fn store_with(data: &[u8], upload_id: &str) -> MemoryStore {
    let mut s = MemoryStore::new(16);
    let d = digest_for(data);
    s.begin_write(upload_id);
    s.write_chunk(upload_id, &data.to_vec(), true).unwrap();
    s.finalize_write(upload_id, &d).unwrap();
    s
}

#[test]
fn read_range_returns_min_of_limit_and_remainder() {
    let data = b"hello, content world";
    let s = store_with(data, "u1");
    let d = digest_for(data);
    for offset in 0..=data.len() {
        for limit in [0usize, 1, 5, data.len(), data.len() + 7] {
            let got = s.get_chunk(&d, offset, limit).unwrap();
            let expect_len = limit.min(data.len() - offset);
            assert_eq!(got.len(), expect_len);
            assert_eq!(&got[..], &data[offset..offset + expect_len]);
        }
    }
}

#[test]
fn read_range_at_size_is_empty_not_an_error() {
    let data = b"abc";
    let s = store_with(data, "u1");
    let d = digest_for(data);
    let got = s.get_chunk(&d, data.len(), 10).unwrap();
    assert!(got.is_empty());
}

#[test]
fn read_range_past_size_is_invalid_range() {
    let data = b"abc";
    let s = store_with(data, "u1");
    let d = digest_for(data);
    assert!(matches!(s.get_chunk(&d, 4, 1), Err(Error::InvalidRange)));
}

#[test]
fn read_of_absent_digest_is_not_found() {
    let s = MemoryStore::new(4);
    let d = digest_for(b"never stored");
    assert!(!s.contains_key(&d));
    assert!(matches!(
        s.get_chunk(&d, 0, 10),
        Err(Error::DigestInfoNotFound(_))
    ));
}

#[test]
fn finalize_with_wrong_hash_is_digest_mismatch_and_leaves_nothing() {
    let data = b"actual bytes";
    let claimed = digest_for(b"different bytes");
    let actual = digest_for(data);
    let mut s = MemoryStore::new(4);
    s.begin_write("u9");
    s.write_chunk("u9", &data.to_vec(), true).unwrap();
    assert!(matches!(
        s.finalize_write("u9", &claimed),
        Err(Error::DigestMismatch)
    ));
    assert!(!s.contains_key(&claimed));
    assert!(!s.contains_key(&actual));
    // the staging buffer is discarded too
    assert!(matches!(s.upload_status("u9"), Err(Error::UploadNotFound(_))));
}

#[test]
fn finalize_with_wrong_size_is_digest_mismatch() {
    let data = b"some bytes";
    let h = sha2::Sha256::digest(data);
    let claimed = DigestInfo::try_new(hex::encode(h).as_str(), data.len() + 1).unwrap();
    let mut s = MemoryStore::new(4);
    s.begin_write("u2");
    s.write_chunk("u2", &data.to_vec(), true).unwrap();
    assert!(matches!(
        s.finalize_write("u2", &claimed),
        Err(Error::DigestMismatch)
    ));
}

#[test]
fn finalize_twice_is_idempotent() {
    let data = b"idempotent payload";
    let d = digest_for(data);
    let mut s = store_with(data, "u1");
    let again = s.finalize_write("u1", &d).unwrap();
    assert!(again.same(&d));
    assert!(s.contains_key(&d));
    let (n, complete) = s.upload_status("u1").unwrap();
    assert_eq!(n, data.len() as u64);
    assert!(complete);
}

#[test]
fn chunked_upload_accumulates_in_order() {
    let mut s = MemoryStore::new(4);
    let data = b"one two three";
    let d = digest_for(data);
    s.begin_write("u3");
    s.write_chunk("u3", &data[..4].to_vec(), false).unwrap();
    let (n, complete) = s.upload_status("u3").unwrap();
    assert_eq!(n, 4);
    assert!(!complete);
    s.write_chunk("u3", &data[4..].to_vec(), true).unwrap();
    s.finalize_write("u3", &d).unwrap();
    let got = s.get_chunk(&d, 0, data.len()).unwrap();
    assert_eq!(&got[..], data);
}

#[test]
fn chunk_after_final_chunk_is_rejected() {
    let mut s = MemoryStore::new(4);
    s.begin_write("u4");
    s.write_chunk("u4", &b"abc".to_vec(), true).unwrap();
    assert!(matches!(
        s.write_chunk("u4", &b"more".to_vec(), false),
        Err(Error::OutOfOrderWrite(_))
    ));
}

#[test]
fn finalize_before_final_chunk_is_rejected() {
    let mut s = MemoryStore::new(4);
    let d = digest_for(b"abc");
    s.begin_write("u5");
    s.write_chunk("u5", &b"abc".to_vec(), false).unwrap();
    assert!(matches!(
        s.finalize_write("u5", &d),
        Err(Error::OutOfOrderWrite(_))
    ));
}

#[test]
fn unknown_upload_is_not_found() {
    let mut s = MemoryStore::new(4);
    assert!(matches!(
        s.write_chunk("nope", &b"x".to_vec(), false),
        Err(Error::UploadNotFound(_))
    ));
    assert!(matches!(s.upload_status("nope"), Err(Error::UploadNotFound(_))));
    let d = digest_for(b"x");
    assert!(matches!(
        s.finalize_write("nope", &d),
        Err(Error::UploadNotFound(_))
    ));
}

#[test]
fn capacity_pressure_evicts_the_oldest_entry() {
    let mut s = MemoryStore::new(1);
    let first = b"first payload";
    let second = b"second payload";
    let d1 = digest_for(first);
    let d2 = digest_for(second);
    s.put_verified(&d1, first.to_vec()).unwrap();
    assert!(s.contains_key(&d1));
    s.put_verified(&d2, second.to_vec()).unwrap();
    assert!(s.contains_key(&d2));
    // bounded at one entry: the older one is gone, and reads say so
    assert!(!s.contains_key(&d1));
    assert!(matches!(
        s.get_chunk(&d1, 0, 1),
        Err(Error::DigestInfoNotFound(_))
    ));
}

#[test]
fn put_verified_rejects_mismatched_payload() {
    let mut s = MemoryStore::new(4);
    let claimed = digest_for(b"aaa");
    assert!(matches!(
        s.put_verified(&claimed, b"bbb".to_vec()),
        Err(Error::DigestMismatch)
    ));
    assert!(!s.contains_key(&claimed));
}

#[test]
fn overwriting_an_existing_key_keeps_one_entry() {
    let mut s = MemoryStore::new(2);
    let data = b"stable";
    let d = digest_for(data);
    s.put_verified(&d, data.to_vec()).unwrap();
    s.put_verified(&d, data.to_vec()).unwrap();
    assert!(s.contains_key(&d));
    let got = s.get_chunk(&d, 0, data.len()).unwrap();
    assert_eq!(&got[..], data);
}
