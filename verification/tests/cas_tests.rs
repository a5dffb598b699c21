use bache::cas::{
    BatchReadBlobsRequest, BatchUpdateBlobRequest, BatchUpdateBlobsRequest,
    ContentAddressableStorageService, FindMissingBlobsRequest, GetTreeRequest,
};
use bache::digest::{Digest, DigestInfo};
use bache::directory::encode_directory;
use bache::errors::{Error, StatusCode};
use bache::instance_name::InstanceName;
use bache::memory::MemoryStore;
use bache::store::{Store, StoreKind, StoreManager};
use sha2::Digest as _;

fn wire_digest(data: &[u8]) -> Digest {
    let h = sha2::Sha256::digest(data);
    Digest { hash: hex::encode(h), size_bytes: data.len() as i64 }
}

fn info_for(data: &[u8]) -> DigestInfo {
    let h = sha2::Sha256::digest(data);
    DigestInfo::try_new(hex::encode(h).as_str(), data.len()).unwrap()
}

fn manager_with(blobs: &[&[u8]]) -> StoreManager {
    let mut store = MemoryStore::new(64);
    for b in blobs {
        let d = info_for(b);
        store.put_verified(&d, b.to_vec()).unwrap();
    }
    StoreManager::new(vec![(
        InstanceName::new("main".to_string()),
        StoreKind::Memory(store),
    )])
}

#[test]
fn find_missing_blobs_returns_exactly_the_complement() {
    let present: Vec<&[u8]> = vec![b"alpha", b"beta", b"gamma"];
    let absent: Vec<&[u8]> = vec![b"delta", b"epsilon"];
    let svc = ContentAddressableStorageService::new(manager_with(&present));

    // interleave present and absent digests
    let digests = vec![
        wire_digest(b"delta"),
        wire_digest(b"alpha"),
        wire_digest(b"epsilon"),
        wire_digest(b"beta"),
        wire_digest(b"gamma"),
    ];
    let resp = svc
        .find_missing_blobs(FindMissingBlobsRequest {
            instance_name: "main".to_string(),
            blob_digests: digests,
        })
        .unwrap();
    let got: Vec<String> = resp.missing_blob_digests.iter().map(|d| d.hash.clone()).collect();
    let want: Vec<String> = absent.iter().map(|b| wire_digest(b).hash).collect();
    assert_eq!(got, want);
}

#[test]
fn find_missing_blobs_empty_input_yields_empty_output() {
    let svc = ContentAddressableStorageService::new(manager_with(&[]));
    let resp = svc
        .find_missing_blobs(FindMissingBlobsRequest {
            instance_name: "main".to_string(),
            blob_digests: vec![],
        })
        .unwrap();
    assert!(resp.missing_blob_digests.is_empty());
}

#[test]
fn find_missing_blobs_large_batch() {
    let stored: Vec<Vec<u8>> = (0..50u32).map(|i| format!("blob-{i}").into_bytes()).collect();
    let refs: Vec<&[u8]> = stored.iter().map(|v| v.as_slice()).collect();
    let svc = ContentAddressableStorageService::new(manager_with(&refs));
    let mut digests = Vec::new();
    for i in 0..200u32 {
        digests.push(wire_digest(format!("blob-{i}").as_bytes()));
    }
    let resp = svc
        .find_missing_blobs(FindMissingBlobsRequest {
            instance_name: "main".to_string(),
            blob_digests: digests,
        })
        .unwrap();
    assert_eq!(resp.missing_blob_digests.len(), 150);
    for d in &resp.missing_blob_digests {
        let i: u32 = {
            let mut found = 0;
            for j in 0..200u32 {
                if wire_digest(format!("blob-{j}").as_bytes()).hash == d.hash {
                    found = j;
                }
            }
            found
        };
        assert!(i >= 50);
    }
}

#[test]
fn find_missing_blobs_result_ignores_input_order() {
    let present: Vec<&[u8]> = vec![b"one", b"two"];
    let svc = ContentAddressableStorageService::new(manager_with(&present));
    let forward = vec![wire_digest(b"one"), wire_digest(b"three"), wire_digest(b"two")];
    let backward = vec![wire_digest(b"two"), wire_digest(b"three"), wire_digest(b"one")];
    let a = svc
        .find_missing_blobs(FindMissingBlobsRequest {
            instance_name: "main".to_string(),
            blob_digests: forward,
        })
        .unwrap();
    let b = svc
        .find_missing_blobs(FindMissingBlobsRequest {
            instance_name: "main".to_string(),
            blob_digests: backward,
        })
        .unwrap();
    assert_eq!(a.missing_blob_digests.len(), 1);
    assert_eq!(b.missing_blob_digests.len(), 1);
    assert_eq!(a.missing_blob_digests[0].hash, b.missing_blob_digests[0].hash);
}

#[test]
fn find_missing_blobs_fails_whole_call_on_bad_digest() {
    let svc = ContentAddressableStorageService::new(manager_with(&[]));
    let digests = vec![wire_digest(b"fine"), Digest { hash: "zz".to_string(), size_bytes: 1 }];
    assert!(matches!(
        svc.find_missing_blobs(FindMissingBlobsRequest {
            instance_name: "main".to_string(),
            blob_digests: digests,
        }),
        Err(Error::InvalidHexString(_))
    ));
}

#[test]
fn unknown_tenant_fails_every_operation() {
    let mut svc = ContentAddressableStorageService::new(manager_with(&[]));
    let req = FindMissingBlobsRequest {
        instance_name: "ghost".to_string(),
        blob_digests: vec![],
    };
    assert!(matches!(svc.find_missing_blobs(req), Err(Error::StoreNotFound(_))));
    assert!(matches!(
        svc.batch_read_blobs(BatchReadBlobsRequest {
            instance_name: "ghost".to_string(),
            digests: vec![],
        }),
        Err(Error::StoreNotFound(_))
    ));
    assert!(matches!(
        svc.batch_update_blobs(BatchUpdateBlobsRequest {
            instance_name: "ghost".to_string(),
            requests: vec![],
        }),
        Err(Error::StoreNotFound(_))
    ));
    assert!(matches!(
        svc.get_tree(GetTreeRequest {
            instance_name: "ghost".to_string(),
            root_digest: wire_digest(b"root"),
            page_size: 0,
            page_token: String::new(),
        }),
        Err(Error::StoreNotFound(_))
    ));
}

#[test]
fn batch_update_isolates_per_entry_failures() {
    let mut svc = ContentAddressableStorageService::new(manager_with(&[]));
    let good = b"good payload";
    let resp = svc
        .batch_update_blobs(BatchUpdateBlobsRequest {
            instance_name: "main".to_string(),
            requests: vec![
                BatchUpdateBlobRequest { digest: wire_digest(good), data: good.to_vec() },
                BatchUpdateBlobRequest {
                    digest: wire_digest(b"claimed"),
                    data: b"other".to_vec(),
                },
                BatchUpdateBlobRequest {
                    digest: Digest { hash: "nothex".to_string(), size_bytes: 1 },
                    data: b"x".to_vec(),
                },
            ],
        })
        .unwrap();
    assert_eq!(resp.responses.len(), 3);
    assert_eq!(resp.responses[0].status, StatusCode::Success);
    assert_eq!(resp.responses[0].digest.hash, wire_digest(good).hash);
    assert_eq!(resp.responses[1].status, StatusCode::InvalidArgument);
    assert_eq!(resp.responses[2].status, StatusCode::InvalidArgument);

    // the good entry is readable afterwards, the bad one is not
    let read = svc
        .batch_read_blobs(BatchReadBlobsRequest {
            instance_name: "main".to_string(),
            digests: vec![wire_digest(good), wire_digest(b"claimed")],
        })
        .unwrap();
    assert_eq!(read.responses[0].status, StatusCode::Success);
    assert_eq!(read.responses[0].data, good.to_vec());
    assert_eq!(read.responses[1].status, StatusCode::NotFound);
    assert!(read.responses[1].data.is_empty());
}

#[test]
fn batch_read_reports_malformed_digest_per_entry() {
    let svc = ContentAddressableStorageService::new(manager_with(&[b"present"]));
    let resp = svc
        .batch_read_blobs(BatchReadBlobsRequest {
            instance_name: "main".to_string(),
            digests: vec![
                Digest { hash: "tooshort".to_string(), size_bytes: 0 },
                wire_digest(b"present"),
            ],
        })
        .unwrap();
    assert_eq!(resp.responses[0].status, StatusCode::InvalidArgument);
    assert_eq!(resp.responses[1].status, StatusCode::Success);
    assert_eq!(resp.responses[1].data, b"present".to_vec());
}

fn store_payload(svc: &mut ContentAddressableStorageService, payload: &[u8]) -> Digest {
    let d = wire_digest(payload);
    let resp = svc
        .batch_update_blobs(BatchUpdateBlobsRequest {
            instance_name: "main".to_string(),
            requests: vec![BatchUpdateBlobRequest {
                digest: d.clone(),
                data: payload.to_vec(),
            }],
        })
        .unwrap();
    assert_eq!(resp.responses[0].status, StatusCode::Success);
    d
}

#[test]
fn get_tree_walks_the_reachable_directories() {
    let mut svc = ContentAddressableStorageService::new(manager_with(&[]));
    // two leaves, one root that references both
    let leaf_a = encode_directory(&vec![]);
    let leaf_b = encode_directory(&vec![]);
    store_payload(&mut svc, &leaf_a);
    store_payload(&mut svc, &leaf_b);
    let leaf_a_info = info_for(&leaf_a);
    let leaf_b_info = info_for(&leaf_b);
    let root = encode_directory(&vec![leaf_a_info, leaf_b_info]);
    let root_digest = store_payload(&mut svc, &root);

    let resp = svc
        .get_tree(GetTreeRequest {
            instance_name: "main".to_string(),
            root_digest,
            page_size: 0,
            page_token: String::new(),
        })
        .unwrap();
    // the root plus one node per distinct leaf payload (the two leaves
    // are byte-identical, so they share one digest)
    assert_eq!(resp.directories.len(), 2);
    assert_eq!(resp.directories[0], root);
    assert_eq!(resp.directories[1], leaf_a);
    assert!(resp.next_page_token.is_empty());
}

#[test]
fn get_tree_paginates_with_decimal_tokens() {
    let mut svc = ContentAddressableStorageService::new(manager_with(&[]));
    let leaf1 = encode_directory(&vec![]);
    store_payload(&mut svc, &leaf1);
    let mid = encode_directory(&vec![info_for(&leaf1)]);
    store_payload(&mut svc, &mid);
    let root = encode_directory(&vec![info_for(&mid)]);
    let root_digest = store_payload(&mut svc, &root);

    let first = svc
        .get_tree(GetTreeRequest {
            instance_name: "main".to_string(),
            root_digest: root_digest.clone(),
            page_size: 2,
            page_token: String::new(),
        })
        .unwrap();
    assert_eq!(first.directories.len(), 2);
    assert!(!first.next_page_token.is_empty());

    let second = svc
        .get_tree(GetTreeRequest {
            instance_name: "main".to_string(),
            root_digest,
            page_size: 2,
            page_token: first.next_page_token,
        })
        .unwrap();
    assert_eq!(second.directories.len(), 1);
    assert_eq!(second.directories[0], leaf1);
    assert!(second.next_page_token.is_empty());
}

#[test]
fn get_tree_missing_root_is_not_found() {
    let svc = ContentAddressableStorageService::new(manager_with(&[]));
    assert!(matches!(
        svc.get_tree(GetTreeRequest {
            instance_name: "main".to_string(),
            root_digest: wire_digest(b"nowhere"),
            page_size: 0,
            page_token: String::new(),
        }),
        Err(Error::DigestInfoNotFound(_))
    ));
}

#[test]
fn get_tree_rejects_a_blob_that_is_no_directory() {
    let mut svc = ContentAddressableStorageService::new(manager_with(&[]));
    let blob = b"just seven";
    let d = store_payload(&mut svc, blob);
    assert!(matches!(
        svc.get_tree(GetTreeRequest {
            instance_name: "main".to_string(),
            root_digest: d,
            page_size: 0,
            page_token: String::new(),
        }),
        Err(Error::NotADirectory(_))
    ));
}

#[test]
fn directory_codec_round_trips() {
    let a = info_for(b"child one");
    let b = info_for(b"child two");
    let payload = encode_directory(&vec![a, b]);
    assert_eq!(payload.len(), 80);
    let decoded = bache::directory::decode_directory(&payload).unwrap();
    assert_eq!(decoded.len(), 2);
    assert!(decoded[0].same(&info_for(b"child one")));
    assert!(decoded[1].same(&info_for(b"child two")));
}

#[test]
fn directory_codec_rejects_ragged_payloads() {
    let payload = vec![0u8; 41];
    assert!(matches!(
        bache::directory::decode_directory(&payload),
        Err(Error::NotADirectory(_))
    ));
}
