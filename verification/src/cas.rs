//! The content-addressable storage handlers: missing-blob discovery, batch
//! small-object update and read. Batch operations isolate per-entry
//! failures; missing-blob discovery does not, since a partial missing set
//! would mislead the caller.
use vstd::prelude::*;

use crate::digest::{wire_digest_key, wire_digest_valid, Digest, DigestInfo};
use crate::errors::{Error, StatusCode};
use crate::hashing::sha256_of;
use crate::hexstr;
use crate::instance_name::InstanceName;
use crate::store::{
    lemma_table_after_store_update, lemma_table_lookup, Store, StoreKind, StoreManager,
};

verus! {

pub struct FindMissingBlobsRequest {
    pub instance_name: String,
    pub blob_digests: Vec<Digest>,
}

pub struct FindMissingBlobsResponse {
    pub missing_blob_digests: Vec<Digest>,
}

pub struct BatchUpdateBlobRequest {
    pub digest: Digest,
    pub data: Vec<u8>,
}

pub struct BatchUpdateBlobsRequest {
    pub instance_name: String,
    pub requests: Vec<BatchUpdateBlobRequest>,
}

pub struct UpdateBlobResponse {
    pub digest: Digest,
    pub status: StatusCode,
}

pub struct BatchUpdateBlobsResponse {
    pub responses: Vec<UpdateBlobResponse>,
}

pub struct BatchReadBlobsRequest {
    pub instance_name: String,
    pub digests: Vec<Digest>,
}

pub struct ReadBlobResponse {
    pub digest: Digest,
    pub data: Vec<u8>,
    pub status: StatusCode,
}

pub struct BatchReadBlobsResponse {
    pub responses: Vec<ReadBlobResponse>,
}

pub struct GetTreeRequest {
    pub instance_name: String,
    pub root_digest: Digest,
    pub page_size: i32,
    pub page_token: String,
}

pub struct GetTreeResponse {
    pub directories: Vec<Vec<u8>>,
    pub next_page_token: String,
}

/// The most directory nodes one tree walk visits: the cycle and runaway
/// defence of `get_tree`.
pub const GET_TREE_MAX_NODES: usize = 4096;

/// Every wire digest in the batch is well-formed.
pub open spec fn all_wire_valid(ds: Seq<Digest>) -> bool {
    forall|i: int| 0 <= i < ds.len() ==> wire_digest_valid(&ds[i])
}

/// The canonical wire form (lowercase hash text and size) of the input
/// digests whose keys the contents do not hold, in input order.
pub open spec fn missing_wire(ds: Seq<Digest>, c: Map<(Seq<u8>, int), Seq<u8>>) -> Seq<
    (Seq<char>, int),
>
    decreases ds.len(),
{
    if ds.len() == 0 {
        Seq::empty()
    } else {
        let rest = missing_wire(ds.drop_last(), c);
        let k = wire_digest_key(&ds.last());
        if c.contains_key(k) {
            rest
        } else {
            rest.push((hexstr::hex_encode(k.0), k.1))
        }
    }
}

pub open spec fn digest_views(ds: Seq<Digest>) -> Seq<(Seq<char>, int)> {
    ds.map_values(|d: Digest| (d.hash@, d.size_bytes as int))
}

/// The missing set is exactly the complement of what the store holds,
/// whatever order the input digests come in: a canonical wire pair is in
/// the result precisely when some input digest has its key and that key
/// is absent from the contents.
pub proof fn lemma_missing_wire_complement(ds: Seq<Digest>, c: Map<(Seq<u8>, int), Seq<u8>>)
    ensures
        forall|p: (Seq<char>, int)|
            missing_wire(ds, c).contains(p) <==> exists|i: int|
                0 <= i < ds.len() && !c.contains_key(wire_digest_key(#[trigger] &ds[i])) && p == (
                    hexstr::hex_encode(wire_digest_key(&ds[i]).0),
                    wire_digest_key(&ds[i]).1,
                ),
    decreases ds.len(),
{
    if ds.len() > 0 {
        lemma_missing_wire_complement(ds.drop_last(), c);
        let rest = missing_wire(ds.drop_last(), c);
        let k = wire_digest_key(&ds.last());
        assert forall|p: (Seq<char>, int)| missing_wire(ds, c).contains(p) implies exists|i: int|
            0 <= i < ds.len() && !c.contains_key(wire_digest_key(#[trigger] &ds[i])) && p == (
                hexstr::hex_encode(wire_digest_key(&ds[i]).0),
                wire_digest_key(&ds[i]).1,
            ) by {
            if rest.contains(p) {
                let i = choose|i: int|
                    0 <= i < ds.drop_last().len() && !c.contains_key(
                        wire_digest_key(#[trigger] &ds.drop_last()[i]),
                    ) && p == (
                        hexstr::hex_encode(wire_digest_key(&ds.drop_last()[i]).0),
                        wire_digest_key(&ds.drop_last()[i]).1,
                    );
                assert(ds[i] == ds.drop_last()[i]);
            } else {
                assert(!c.contains_key(k));
                assert(p == (hexstr::hex_encode(k.0), k.1));
                assert(ds[ds.len() - 1] == ds.last());
            }
        }
        assert forall|p: (Seq<char>, int)|
            (exists|i: int|
                0 <= i < ds.len() && !c.contains_key(wire_digest_key(#[trigger] &ds[i])) && p == (
                    hexstr::hex_encode(wire_digest_key(&ds[i]).0),
                    wire_digest_key(&ds[i]).1,
                )) implies missing_wire(ds, c).contains(p) by {
            let i = choose|i: int|
                0 <= i < ds.len() && !c.contains_key(wire_digest_key(#[trigger] &ds[i])) && p == (
                    hexstr::hex_encode(wire_digest_key(&ds[i]).0),
                    wire_digest_key(&ds[i]).1,
                );
            if i < ds.len() - 1 {
                assert(ds.drop_last()[i] == ds[i]);
                assert(rest.contains(p));
                let j = choose|j: int| 0 <= j < rest.len() && rest[j] == p;
                if c.contains_key(k) {
                    assert(missing_wire(ds, c)[j] == p);
                } else {
                    assert(missing_wire(ds, c) == rest.push((hexstr::hex_encode(k.0), k.1)));
                    assert(missing_wire(ds, c)[j] == p);
                }
            } else {
                assert(ds[i] == ds.last());
                assert(missing_wire(ds, c) == rest.push((hexstr::hex_encode(k.0), k.1)));
                assert(missing_wire(ds, c).last() == p);
            }
        }
    }
}

/// A batch-update entry succeeds exactly when its digest is well-formed
/// and its payload has the declared size and hash.
pub open spec fn update_entry_ok(e: &BatchUpdateBlobRequest) -> bool {
    &&& wire_digest_valid(&e.digest)
    &&& e.data@.len() == e.digest.size_bytes as int
    &&& sha256_of(e.data@) == hexstr::hex_decode(e.digest.hash@)
}

/// What one batch-read entry must hold: the echoed digest, and data with a
/// status fitting the three cases — malformed digest, absent key, or the
/// stored payload.
pub open spec fn read_entry_spec(
    d: &Digest,
    c: Map<(Seq<u8>, int), Seq<u8>>,
    out: &ReadBlobResponse,
) -> bool {
    &&& out.digest.hash@ == d.hash@
    &&& out.digest.size_bytes == d.size_bytes
    &&& if !wire_digest_valid(d) {
        out.status == StatusCode::InvalidArgument && out.data@ == Seq::<u8>::empty()
    } else if !c.contains_key(wire_digest_key(d)) {
        out.status == StatusCode::NotFound && out.data@ == Seq::<u8>::empty()
    } else {
        out.status == StatusCode::Success && out.data@ == c[wire_digest_key(d)]
    }
}

/// Every listed payload is a stored, well-formed directory payload.
pub open spec fn payloads_stored(ps: Seq<Vec<u8>>, c: Map<(Seq<u8>, int), Seq<u8>>) -> bool {
    forall|i: int|
        0 <= i < ps.len() ==> exists|k: (Seq<u8>, int)|
            c.contains_key(k) && (#[trigger] ps[i])@ == c[k]
                && crate::directory::is_dir_payload(c[k])
}

/// Whether a digest with the same hash and size is already listed.
fn digest_listed(listed: &Vec<DigestInfo>, d: &DigestInfo) -> (r: bool)
    ensures
        r == exists|i: int| 0 <= i < listed@.len() && (#[trigger] listed@[i])@ == d@,
{
    let mut i: usize = 0;
    while i < listed.len()
        invariant
            i <= listed@.len(),
            forall|j: int| 0 <= j < i ==> (#[trigger] listed@[j])@ != d@,
        decreases listed@.len() - i,
    {
        if listed[i].same(d) {
            proof {
                assert(listed@[i as int]@ == d@);
            }
            return true;
        }
        i = i + 1;
    }
    false
}

/// The CAS protocol handler: routes a tenant to its store and runs the
/// batch operations against it.
pub struct ContentAddressableStorageService {
    stores: StoreManager,
}

impl ContentAddressableStorageService {
    pub closed spec fn wf(&self) -> bool {
        self.stores.wf()
    }

    pub closed spec fn table(&self) -> Map<Seq<char>, StoreKind> {
        self.stores.table()
    }

    pub fn new(stores: StoreManager) -> (r: Self)
        requires
            stores.wf(),
        ensures
            r.wf(),
            r.table() == stores.table(),
    {
        Self { stores }
    }

    /// Hands the store table back, so one table can serve several
    /// handlers in turn.
    pub fn into_stores(self) -> (r: StoreManager)
        ensures
            r.wf() == self.wf(),
            r.table() == self.table(),
    {
        self.stores
    }

    /// Probes every digest's existence in the tenant's store and returns
    /// the subset that is absent, in input order and in canonical wire
    /// form. One malformed digest fails the whole call, and an unknown
    /// tenant is `StoreNotFound`: no partial missing set is ever returned.
    pub fn find_missing_blobs(&self, request: FindMissingBlobsRequest) -> (r: Result<
        FindMissingBlobsResponse,
        Error,
    >)
        requires
            self.wf(),
        ensures
            match r {
                Ok(resp) => {
                    &&& self.table().contains_key(request.instance_name@)
                    &&& all_wire_valid(request.blob_digests@)
                    &&& digest_views(resp.missing_blob_digests@) == missing_wire(
                        request.blob_digests@,
                        self.table()[request.instance_name@].contents(),
                    )
                },
                Err(Error::StoreNotFound(n)) => {
                    &&& !self.table().contains_key(request.instance_name@)
                    &&& n@ == request.instance_name@
                },
                Err(Error::InvalidHexString(_)) => {
                    &&& self.table().contains_key(request.instance_name@)
                    &&& !all_wire_valid(request.blob_digests@)
                },
                Err(Error::InvalidDigestParts(_)) => {
                    &&& self.table().contains_key(request.instance_name@)
                    &&& !all_wire_valid(request.blob_digests@)
                },
                Err(_) => false,
            },
    {
        let instance = InstanceName::new(request.instance_name);
        let idx = match self.stores.get_store_index(&instance) {
            Ok(i) => i,
            Err(e) => {
                return Err(e);
            },
        };
        let store = self.stores.store_ref(idx);
        proof {
            lemma_table_lookup(self.stores, idx as int);
        }
        let ghost contents = store.contents();
        let ds = &request.blob_digests;
        let mut missing: Vec<Digest> = Vec::new();
        let mut i: usize = 0;
        proof {
            assert(digest_views(missing@) =~= Seq::<(Seq<char>, int)>::empty());
            assert(ds@.subrange(0, 0) =~= Seq::<Digest>::empty());
        }
        while i < ds.len()
            invariant
                self.wf(),
                i <= ds@.len(),
                instance@ == request.instance_name@,
                ds@ == request.blob_digests@,
                self.table().contains_key(instance@),
                store == self.table()[instance@],
                store.wf(),
                contents == store.contents(),
                forall|j: int| 0 <= j < i ==> wire_digest_valid(#[trigger] &ds@[j]),
                digest_views(missing@) == missing_wire(ds@.subrange(0, i as int), contents),
            decreases ds@.len() - i,
        {
            let w = ds[i].clone();
            let di = match DigestInfo::try_from_wire(w) {
                Ok(d) => d,
                Err(e) => {
                    proof {
                        assert(!wire_digest_valid(&ds@[i as int]));
                    }
                    return Err(e);
                },
            };
            let ghost pre = missing@;
            if !store.contains_key(&di) {
                missing.push(di.to_wire());
            }
            i = i + 1;
            proof {
                let prefix = ds@.subrange(0, i as int);
                assert(prefix.drop_last() =~= ds@.subrange(0, i - 1));
                assert(prefix.last() == ds@[i - 1]);
                assert(di@ == wire_digest_key(&ds@[i - 1]));
                if contents.contains_key(wire_digest_key(&ds@[i - 1])) {
                    assert(digest_views(missing@) =~= digest_views(pre));
                } else {
                    assert(digest_views(missing@) =~= digest_views(pre).push(
                        (
                            hexstr::hex_encode(wire_digest_key(&ds@[i - 1]).0),
                            wire_digest_key(&ds@[i - 1]).1,
                        ),
                    ));
                }
            }
        }
        proof {
            assert(ds@.subrange(0, ds@.len() as int) =~= ds@);
        }
        Ok(FindMissingBlobsResponse { missing_blob_digests: missing })
    }

    /// Verifies each payload against its claimed digest and commits the
    /// ones that match; a mismatch or a malformed digest fails only its
    /// own entry, with a per-entry status. The upload sessions of the
    /// store are untouched.
    pub fn batch_update_blobs(&mut self, request: BatchUpdateBlobsRequest) -> (r: Result<
        BatchUpdateBlobsResponse,
        Error,
    >)
        requires
            old(self).wf(),
        ensures
            final(self).wf(),
            match r {
                Ok(resp) => {
                    &&& old(self).table().contains_key(request.instance_name@)
                    &&& final(self).table().contains_key(request.instance_name@)
                    &&& final(self).table() == old(self).table().insert(
                        request.instance_name@,
                        final(self).table()[request.instance_name@],
                    )
                    &&& final(self).table()[request.instance_name@].staged() == old(
                        self,
                    ).table()[request.instance_name@].staged()
                    &&& final(self).table()[request.instance_name@].committed() == old(
                        self,
                    ).table()[request.instance_name@].committed()
                    &&& resp.responses@.len() == request.requests@.len()
                    &&& forall|i: int|
                        0 <= i < request.requests@.len() ==> {
                            let e = #[trigger] request.requests@[i];
                            let out = resp.responses@[i];
                            &&& out.digest.hash@ == e.digest.hash@
                            &&& out.digest.size_bytes == e.digest.size_bytes
                            &&& out.status == if update_entry_ok(&e) {
                                StatusCode::Success
                            } else {
                                StatusCode::InvalidArgument
                            }
                        }
                    &&& forall|i: int|
                        0 <= i < request.requests@.len() && update_entry_ok(
                            #[trigger] &request.requests@[i],
                        ) && (forall|j: int|
                            i < j < request.requests@.len() ==> !update_entry_ok(
                                #[trigger] &request.requests@[j],
                            )) ==> {
                            let e = request.requests@[i];
                            let key = wire_digest_key(&e.digest);
                            &&& final(self).table()[request.instance_name@].contents().contains_key(
                                key,
                            )
                            &&& final(self).table()[request.instance_name@].contents()[key]
                                == e.data@
                        }
                },
                Err(Error::StoreNotFound(n)) => {
                    &&& !old(self).table().contains_key(request.instance_name@)
                    &&& n@ == request.instance_name@
                    &&& *final(self) == *old(self)
                },
                Err(_) => false,
            },
    {
        let instance = InstanceName::new(request.instance_name);
        let idx = match self.stores.get_store_index(&instance) {
            Ok(i) => i,
            Err(e) => {
                return Err(e);
            },
        };
        proof {
            lemma_table_lookup(self.stores, idx as int);
        }
        let ghost orig = *self;
        let mut responses: Vec<UpdateBlobResponse> = Vec::new();
        let mut i: usize = 0;
        while i < request.requests.len()
            invariant
                orig.wf(),
                self.wf(),
                idx < orig.stores.count(),
                idx < self.stores.count(),
                orig.table().contains_key(instance@),
                orig.stores.name_at(idx as int) == instance@,
                self.stores.count() == orig.stores.count(),
                forall|j: int|
                    0 <= j < orig.stores.count() ==> self.stores.name_at(j)
                        == orig.stores.name_at(j),
                forall|j: int|
                    0 <= j < orig.stores.count() && j != idx ==> self.stores.store_at(j)
                        == orig.stores.store_at(j),
                self.stores.store_at(idx as int).wf(),
                self.stores.store_at(idx as int).staged() == orig.stores.store_at(
                    idx as int,
                ).staged(),
                self.stores.store_at(idx as int).committed() == orig.stores.store_at(
                    idx as int,
                ).committed(),
                i <= request.requests@.len(),
                responses@.len() == i,
                forall|j: int|
                    0 <= j < i ==> {
                        let e = #[trigger] request.requests@[j];
                        let out = responses@[j];
                        &&& out.digest.hash@ == e.digest.hash@
                        &&& out.digest.size_bytes == e.digest.size_bytes
                        &&& out.status == if update_entry_ok(&e) {
                            StatusCode::Success
                        } else {
                            StatusCode::InvalidArgument
                        }
                    },
                forall|a: int|
                    0 <= a < i && update_entry_ok(#[trigger] &request.requests@[a]) && (
                    forall|b: int|
                        a < b < i ==> !update_entry_ok(#[trigger] &request.requests@[b])) ==> {
                        let e = request.requests@[a];
                        let key = wire_digest_key(&e.digest);
                        &&& self.stores.store_at(idx as int).contents().contains_key(key)
                        &&& self.stores.store_at(idx as int).contents()[key] == e.data@
                    },
            decreases request.requests@.len() - i,
        {
            let entry = &request.requests[i];
            let echo = entry.digest.clone();
            let status: StatusCode = match DigestInfo::try_from_wire(entry.digest.clone()) {
                Ok(di) => {
                    let data = crate::digest::clone_bytes(&entry.data);
                    let ghost before = *self;
                    let store = self.stores.store_mut(idx);
                    let outcome = store.put_verified(&di, data);
                    proof {
                        lemma_table_after_store_update(
                            before.stores,
                            self.stores,
                            idx as int,
                        );
                    }
                    match outcome {
                        Ok(_) => StatusCode::Success,
                        Err(_) => StatusCode::InvalidArgument,
                    }
                },
                Err(_) => StatusCode::InvalidArgument,
            };
            responses.push(UpdateBlobResponse { digest: echo, status });
            i = i + 1;
        }
        proof {
            lemma_table_after_store_update(orig.stores, self.stores, idx as int);
            lemma_table_lookup(self.stores, idx as int);
        }
        Ok(BatchUpdateBlobsResponse { responses })
    }

    /// Attempts a full-object read for each digest; a malformed digest or
    /// an absent key yields a per-entry status rather than aborting the
    /// batch.
    pub fn batch_read_blobs(&self, request: BatchReadBlobsRequest) -> (r: Result<
        BatchReadBlobsResponse,
        Error,
    >)
        requires
            self.wf(),
        ensures
            match r {
                Ok(resp) => {
                    &&& self.table().contains_key(request.instance_name@)
                    &&& resp.responses@.len() == request.digests@.len()
                    &&& forall|i: int|
                        0 <= i < request.digests@.len() ==> read_entry_spec(
                            &request.digests@[i],
                            self.table()[request.instance_name@].contents(),
                            #[trigger] &resp.responses@[i],
                        )
                },
                Err(Error::StoreNotFound(n)) => {
                    &&& !self.table().contains_key(request.instance_name@)
                    &&& n@ == request.instance_name@
                },
                Err(_) => false,
            },
    {
        let instance = InstanceName::new(request.instance_name);
        let idx = match self.stores.get_store_index(&instance) {
            Ok(i) => i,
            Err(e) => {
                return Err(e);
            },
        };
        let store = self.stores.store_ref(idx);
        proof {
            lemma_table_lookup(self.stores, idx as int);
            crate::store::lemma_store_contents_addressed(store);
        }
        let ghost contents = store.contents();
        let ds = &request.digests;
        let mut responses: Vec<ReadBlobResponse> = Vec::new();
        let mut i: usize = 0;
        while i < ds.len()
            invariant
                self.wf(),
                i <= ds@.len(),
                instance@ == request.instance_name@,
                ds@ == request.digests@,
                self.table().contains_key(instance@),
                store == self.table()[instance@],
                store.wf(),
                contents == store.contents(),
                forall|k: (Seq<u8>, int)|
                    contents.contains_key(k) ==> (#[trigger] contents[k]).len() == k.1 && 0 <= k.1
                        <= usize::MAX,
                responses@.len() == i,
                forall|j: int|
                    0 <= j < i ==> read_entry_spec(
                        &ds@[j],
                        contents,
                        #[trigger] &responses@[j],
                    ),
            decreases ds@.len() - i,
        {
            let echo = ds[i].clone();
            let out = match DigestInfo::try_from_wire(ds[i].clone()) {
                Ok(di) => {
                    if !store.contains_key(&di) {
                        ReadBlobResponse {
                            digest: echo,
                            data: Vec::new(),
                            status: StatusCode::NotFound,
                        }
                    } else {
                        let limit: usize = if di.size_bytes as u64 <= usize::MAX as u64 {
                            di.size_bytes as usize
                        } else {
                            usize::MAX
                        };
                        match store.get_chunk(&di, 0, limit) {
                            Ok(data) => {
                                proof {
                                    assert(contents[di@].len() == di@.1);
                                    assert(data@ =~= contents[di@]);
                                }
                                ReadBlobResponse {
                                    digest: echo,
                                    data,
                                    status: StatusCode::Success,
                                }
                            },
                            Err(_) => {
                                proof {
                                    assert(false);
                                }
                                ReadBlobResponse {
                                    digest: echo,
                                    data: Vec::new(),
                                    status: StatusCode::NotFound,
                                }
                            },
                        }
                    }
                },
                Err(_) => ReadBlobResponse {
                    digest: echo,
                    data: Vec::new(),
                    status: StatusCode::InvalidArgument,
                },
            };
            responses.push(out);
            i = i + 1;
        }
        Ok(BatchReadBlobsResponse { responses })
    }

    /// Walks the transitive set of directory nodes reachable from the
    /// root digest, breadth first, visiting at most `GET_TREE_MAX_NODES`
    /// nodes as a defence against cycles, and returns one page of raw
    /// directory payloads. An absent child subtree is skipped; an absent
    /// root is `NotFound`; a payload that is no directory fails the call.
    /// The page token is the decimal index into the walk order at which
    /// the page starts; the next token is empty on the last page.
    pub fn get_tree(&self, request: GetTreeRequest) -> (r: Result<GetTreeResponse, Error>)
        requires
            self.wf(),
        ensures
            match r {
                Ok(resp) => ({
                    let c = self.table()[request.instance_name@].contents();
                    let root = wire_digest_key(&request.root_digest);
                    &&& self.table().contains_key(request.instance_name@)
                    &&& wire_digest_valid(&request.root_digest)
                    &&& c.contains_key(root)
                    &&& payloads_stored(resp.directories@, c)
                    &&& request.page_token@.len() == 0 ==> resp.directories@.len() > 0 && (
                    resp.directories@[0])@ == c[root]
                }),
                Err(Error::StoreNotFound(n)) => {
                    &&& !self.table().contains_key(request.instance_name@)
                    &&& n@ == request.instance_name@
                },
                Err(Error::InvalidHexString(_)) => {
                    &&& self.table().contains_key(request.instance_name@)
                    &&& !wire_digest_valid(&request.root_digest)
                },
                Err(Error::InvalidDigestParts(_)) => {
                    &&& self.table().contains_key(request.instance_name@)
                    &&& !wire_digest_valid(&request.root_digest)
                },
                Err(Error::DigestInfoNotFound(h)) => {
                    &&& self.table().contains_key(request.instance_name@)
                    &&& wire_digest_valid(&request.root_digest)
                    &&& !self.table()[request.instance_name@].contents().contains_key(
                        wire_digest_key(&request.root_digest),
                    )
                    &&& h@ == hexstr::hex_encode(wire_digest_key(&request.root_digest).0)
                },
                Err(Error::NotADirectory(_)) => {
                    &&& self.table().contains_key(request.instance_name@)
                    &&& wire_digest_valid(&request.root_digest)
                },
                Err(Error::ConversionIntError(_)) => {
                    &&& self.table().contains_key(request.instance_name@)
                    &&& wire_digest_valid(&request.root_digest)
                },
                Err(_) => false,
            },
    {
        let instance = InstanceName::new(request.instance_name);
        let idx = match self.stores.get_store_index(&instance) {
            Ok(i) => i,
            Err(e) => {
                return Err(e);
            },
        };
        let store = self.stores.store_ref(idx);
        proof {
            lemma_table_lookup(self.stores, idx as int);
            crate::store::lemma_store_contents_addressed(store);
        }
        let ghost contents = store.contents();
        let root_di = match DigestInfo::try_from_wire(request.root_digest) {
            Ok(d) => d,
            Err(e) => {
                return Err(e);
            },
        };
        if !store.contains_key(&root_di) {
            return Err(Error::DigestInfoNotFound(root_di.hash()));
        }
        let start: usize = if request.page_token.as_str().is_empty() {
            0
        } else {
            match crate::resource_name::parse_size(&request.page_token) {
                Some(v) => v,
                None => {
                    return Err(
                        Error::ConversionIntError(
                            "`page_token` could not be converted into a valid usize".to_owned(),
                        ),
                    );
                },
            }
        };
        let ghost root_key = root_di@;
        let mut visited: Vec<DigestInfo> = Vec::new();
        let mut queue: Vec<DigestInfo> = Vec::new();
        visited.push(root_di.clone());
        queue.push(root_di);
        let mut head: usize = 0;
        let mut payloads: Vec<Vec<u8>> = Vec::new();
        while head < queue.len()
            invariant
                self.wf(),
                instance@ == request.instance_name@,
                self.table().contains_key(instance@),
                store == self.table()[instance@],
                store.wf(),
                contents == store.contents(),
                forall|k: (Seq<u8>, int)|
                    contents.contains_key(k) ==> (#[trigger] contents[k]).len() == k.1 && 0 <= k.1
                        <= usize::MAX,
                head <= queue@.len(),
                payloads@.len() <= GET_TREE_MAX_NODES,
                wire_digest_valid(&request.root_digest),
                root_key == wire_digest_key(&request.root_digest),
                contents.contains_key(root_key),
                queue@.len() > 0,
                (queue@[0])@ == root_key,
                payloads@.len() == 0 ==> head == 0,
                payloads@.len() > 0 ==> (payloads@[0])@ == contents[root_key],
                payloads_stored(payloads@, contents),
            ensures
                payloads@.len() > 0,
            decreases GET_TREE_MAX_NODES - payloads@.len(), queue@.len() - head,
        {
            if payloads.len() >= GET_TREE_MAX_NODES {
                break ;
            }
            let d = queue[head].clone();
            head = head + 1;
            if !store.contains_key(&d) {
                continue ;
            }
            let limit: usize = if d.size_bytes as u64 <= usize::MAX as u64 {
                d.size_bytes as usize
            } else {
                usize::MAX
            };
            let data = match store.get_chunk(&d, 0, limit) {
                Ok(v) => v,
                Err(_) => {
                    proof {
                        assert(false);
                    }
                    Vec::new()
                },
            };
            proof {
                assert(contents[d@].len() == d@.1);
                assert(data@ =~= contents[d@]);
            }
            let children = match crate::directory::decode_directory(&data) {
                Ok(cs) => cs,
                Err(e) => {
                    return Err(e);
                },
            };
            let mut j: usize = 0;
            while j < children.len()
                invariant
                    j <= children@.len(),
                    head <= queue@.len(),
                    queue@.len() > 0,
                    (queue@[0])@ == root_key,
                decreases children@.len() - j,
            {
                let c = children[j].clone();
                if !digest_listed(&visited, &c) {
                    visited.push(children[j].clone());
                    queue.push(c);
                }
                j = j + 1;
            }
            let ghost pre = payloads@;
            payloads.push(data);
            proof {
                assert forall|i: int| 0 <= i < payloads@.len() implies exists|k: (Seq<u8>, int)|
                    contents.contains_key(k) && (#[trigger] payloads@[i])@ == contents[k]
                        && crate::directory::is_dir_payload(contents[k]) by {
                    if i < pre.len() {
                        assert(payloads@[i] == pre[i]);
                        assert(exists|k: (Seq<u8>, int)|
                            contents.contains_key(k) && (#[trigger] pre[i])@ == contents[k]
                                && crate::directory::is_dir_payload(contents[k]));
                    } else {
                        assert(contents.contains_key(d@) && payloads@[i]@ == contents[d@]
                            && crate::directory::is_dir_payload(contents[d@]));
                    }
                }
            }
        }
        let page_limit: usize = if request.page_size <= 0 {
            GET_TREE_MAX_NODES
        } else {
            request.page_size as usize
        };
        let mut page: Vec<Vec<u8>> = Vec::new();
        let mut i: usize = start;
        while i < payloads.len() && page.len() < page_limit
            invariant
                payloads_stored(payloads@, contents),
                payloads_stored(page@, contents),
                i <= payloads@.len() || i == start,
                contents.contains_key(root_key),
                payloads@.len() > 0,
                (payloads@[0])@ == contents[root_key],
                page@.len() == 0 ==> i == start,
                start == 0 && page@.len() > 0 ==> (page@[0])@ == contents[root_key],
            decreases payloads@.len() - i,
        {
            let ghost pre = page@;
            page.push(crate::digest::clone_bytes(&payloads[i]));
            i = i + 1;
            proof {
                assert forall|ii: int| 0 <= ii < page@.len() implies exists|k: (Seq<u8>, int)|
                    contents.contains_key(k) && (#[trigger] page@[ii])@ == contents[k]
                        && crate::directory::is_dir_payload(contents[k]) by {
                    if ii < pre.len() {
                        assert(page@[ii] == pre[ii]);
                        assert(exists|k: (Seq<u8>, int)|
                            contents.contains_key(k) && (#[trigger] pre[ii])@ == contents[k]
                                && crate::directory::is_dir_payload(contents[k]));
                    } else {
                        assert(page@[ii]@ == payloads@[i - 1]@);
                        assert(exists|k: (Seq<u8>, int)|
                            contents.contains_key(k) && (#[trigger] payloads@[i - 1])@
                                == contents[k] && crate::directory::is_dir_payload(contents[k]));
                    }
                }
            }
        }
        let next_page_token = if i < payloads.len() {
            crate::resource_name::usize_to_dec(i)
        } else {
            String::new()
        };
        Ok(GetTreeResponse { directories: page, next_page_token })
    }
}

} // verus!
