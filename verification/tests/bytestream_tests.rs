use bache::bytestream::{
    ByteStreamService, QueryWriteStatusRequest, ReadRequest, WriteRequest,
};
use bache::digest::DigestInfo;
use bache::errors::Error;
use bache::instance_name::InstanceName;
use bache::memory::MemoryStore;
use bache::store::{Store, StoreKind, StoreManager};
use sha2::Digest as _;

const UUID_A: &str = "550e8400-e29b-41d4-a716-446655440000";

fn digest_hex(data: &[u8]) -> String {
    hex::encode(sha2::Sha256::digest(data))
}

fn manager_with(blobs: &[&[u8]]) -> StoreManager {
    let mut store = MemoryStore::new(64);
    for b in blobs {
        let d = DigestInfo::try_new(digest_hex(b).as_str(), b.len()).unwrap();
        store.put_verified(&d, b.to_vec()).unwrap();
    }
    StoreManager::new(vec![(
        InstanceName::new("main".to_string()),
        StoreKind::Memory(store),
    )])
}

fn read_name(data: &[u8]) -> String {
    format!("main/blobs/{}/{}", digest_hex(data), data.len())
}

fn write_name(data: &[u8]) -> String {
    format!("main/uploads/{UUID_A}/blobs/{}/{}", digest_hex(data), data.len())
}

#[test]
fn read_serves_the_requested_range() {
    let data = b"the quick brown fox";
    let svc = ByteStreamService::new(manager_with(&[data]));
    let resp = svc
        .read(ReadRequest { resource_name: read_name(data), read_offset: 4, read_limit: 5 })
        .unwrap();
    assert_eq!(&resp.data[..], &data[4..9]);
}

#[test]
fn read_with_zero_limit_is_one_empty_frame() {
    let svc = ByteStreamService::new(manager_with(&[]));
    let resp = svc
        .read(ReadRequest {
            resource_name: "whatever".to_string(),
            read_offset: 0,
            read_limit: 0,
        })
        .unwrap();
    assert!(resp.data.is_empty());
}

#[test]
fn read_with_negative_limit_or_offset_fails() {
    let data = b"abc";
    let svc = ByteStreamService::new(manager_with(&[data]));
    assert!(matches!(
        svc.read(ReadRequest { resource_name: read_name(data), read_offset: 0, read_limit: -1 }),
        Err(Error::ConversionIntError(_))
    ));
    assert!(matches!(
        svc.read(ReadRequest { resource_name: read_name(data), read_offset: -2, read_limit: 1 }),
        Err(Error::ConversionIntError(_))
    ));
}

#[test]
fn read_limit_past_the_end_returns_the_remainder() {
    let data = b"abcdef";
    let svc = ByteStreamService::new(manager_with(&[data]));
    let resp = svc
        .read(ReadRequest { resource_name: read_name(data), read_offset: 2, read_limit: 100 })
        .unwrap();
    assert_eq!(&resp.data[..], &data[2..]);
}

#[test]
fn read_of_absent_blob_is_not_found() {
    let svc = ByteStreamService::new(manager_with(&[]));
    assert!(matches!(
        svc.read(ReadRequest {
            resource_name: read_name(b"missing"),
            read_offset: 0,
            read_limit: 10,
        }),
        Err(Error::DigestInfoNotFound(_))
    ));
}

#[test]
fn read_unknown_tenant_is_store_not_found() {
    let data = b"abc";
    let svc = ByteStreamService::new(manager_with(&[data]));
    let name = format!("ghost/blobs/{}/{}", digest_hex(data), data.len());
    assert!(matches!(
        svc.read(ReadRequest { resource_name: name, read_offset: 0, read_limit: 1 }),
        Err(Error::StoreNotFound(_))
    ));
}

#[test]
fn write_stream_commits_and_read_gets_it_back() {
    let data = b"streamed content in two frames";
    let mut svc = ByteStreamService::new(manager_with(&[]));
    let frames = vec![
        WriteRequest {
            resource_name: write_name(data),
            write_offset: 0,
            finish_write: false,
            data: data[..10].to_vec(),
        },
        WriteRequest {
            resource_name: write_name(data),
            write_offset: 10,
            finish_write: true,
            data: data[10..].to_vec(),
        },
    ];
    let resp = svc.write(&frames).unwrap();
    assert_eq!(resp.committed_size, data.len() as i64);
    let got = svc
        .read(ReadRequest {
            resource_name: read_name(data),
            read_offset: 0,
            read_limit: data.len() as i64,
        })
        .unwrap();
    assert_eq!(&got.data[..], data);
}

#[test]
fn rewriting_a_committed_upload_succeeds_again() {
    let data = b"retried upload";
    let mut svc = ByteStreamService::new(manager_with(&[]));
    let frames = vec![WriteRequest {
        resource_name: write_name(data),
        write_offset: 0,
        finish_write: true,
        data: data.to_vec(),
    }];
    let first = svc.write(&frames).unwrap();
    let second = svc.write(&frames).unwrap();
    assert_eq!(first.committed_size, second.committed_size);
}

#[test]
fn write_with_wrong_offset_is_out_of_order() {
    let data = b"ooo";
    let mut svc = ByteStreamService::new(manager_with(&[]));
    let frames = vec![WriteRequest {
        resource_name: write_name(data),
        write_offset: 5,
        finish_write: true,
        data: data.to_vec(),
    }];
    assert!(matches!(svc.write(&frames), Err(Error::OutOfOrderWrite(_))));
}

#[test]
fn write_with_wrong_digest_is_a_mismatch() {
    let claimed = b"claimed content";
    let actual = b"actual content!";
    let mut svc = ByteStreamService::new(manager_with(&[]));
    let frames = vec![WriteRequest {
        resource_name: write_name(claimed),
        write_offset: 0,
        finish_write: true,
        data: actual.to_vec(),
    }];
    assert!(matches!(svc.write(&frames), Err(Error::DigestMismatch)));
    // nothing became readable under the claimed digest
    assert!(matches!(
        svc.read(ReadRequest {
            resource_name: read_name(claimed),
            read_offset: 0,
            read_limit: 1,
        }),
        Err(Error::DigestInfoNotFound(_))
    ));
}

#[test]
fn interrupted_write_reports_progress_and_resumes() {
    let data = b"resumable payload";
    let mut svc = ByteStreamService::new(manager_with(&[]));
    let first = vec![WriteRequest {
        resource_name: write_name(data),
        write_offset: 0,
        finish_write: false,
        data: data[..6].to_vec(),
    }];
    assert!(matches!(svc.write(&first), Err(Error::IncompleteWrite(_))));

    let status = svc
        .query_write_status(QueryWriteStatusRequest { resource_name: write_name(data) })
        .unwrap();
    assert_eq!(status.committed_size, 6);
    assert!(!status.complete);

    let rest = vec![WriteRequest {
        resource_name: write_name(data),
        write_offset: 6,
        finish_write: true,
        data: data[6..].to_vec(),
    }];
    let resp = svc.write(&rest).unwrap();
    assert_eq!(resp.committed_size, data.len() as i64);

    let done = svc
        .query_write_status(QueryWriteStatusRequest { resource_name: write_name(data) })
        .unwrap();
    assert!(done.complete);
    assert_eq!(done.committed_size, data.len() as i64);
}

#[test]
fn write_requires_an_upload_name() {
    let data = b"abc";
    let mut svc = ByteStreamService::new(manager_with(&[]));
    let frames = vec![WriteRequest {
        resource_name: read_name(data),
        write_offset: 0,
        finish_write: true,
        data: data.to_vec(),
    }];
    assert!(matches!(svc.write(&frames), Err(Error::InvalidResourceName(_))));
}

#[test]
fn empty_write_stream_is_incomplete() {
    let mut svc = ByteStreamService::new(manager_with(&[]));
    assert!(matches!(svc.write(&vec![]), Err(Error::IncompleteWrite(_))));
}

#[test]
fn query_write_status_of_unknown_upload_is_not_found() {
    let svc = ByteStreamService::new(manager_with(&[]));
    assert!(matches!(
        svc.query_write_status(QueryWriteStatusRequest {
            resource_name: write_name(b"never started"),
        }),
        Err(Error::UploadNotFound(_))
    ));
}

#[test]
fn write_unknown_tenant_is_store_not_found() {
    let data = b"abc";
    let mut svc = ByteStreamService::new(manager_with(&[]));
    let name = format!("ghost/uploads/{UUID_A}/blobs/{}/{}", digest_hex(data), data.len());
    let frames = vec![WriteRequest {
        resource_name: name,
        write_offset: 0,
        finish_write: true,
        data: data.to_vec(),
    }];
    assert!(matches!(svc.write(&frames), Err(Error::StoreNotFound(_))));
}

#[test]
fn one_table_serves_both_handler_kinds() {
    let data = b"shared across services";
    let mut byte_svc = ByteStreamService::new(manager_with(&[]));
    let frames = vec![WriteRequest {
        resource_name: write_name(data),
        write_offset: 0,
        finish_write: true,
        data: data.to_vec(),
    }];
    byte_svc.write(&frames).unwrap();

    let cas_svc =
        bache::cas::ContentAddressableStorageService::new(byte_svc.into_stores());
    let resp = cas_svc
        .find_missing_blobs(bache::cas::FindMissingBlobsRequest {
            instance_name: "main".to_string(),
            blob_digests: vec![bache::digest::Digest {
                hash: digest_hex(data),
                size_bytes: data.len() as i64,
            }],
        })
        .unwrap();
    assert!(resp.missing_blob_digests.is_empty());
}
