//! The chunked byte-transfer handlers: ranged read, resumable multi-frame
//! write, and the upload-status query that write resumption relies on.
use vstd::prelude::*;

use crate::digest::{DigestInfo, HASH_LEN};
use crate::errors::Error;
use crate::hashing::sha256_of;
use crate::hexstr;
use crate::resource_name::{parse_resource_spec, ResourceName};
use crate::store::{
    lemma_table_after_store_update, lemma_table_lookup, Store, StoreKind, StoreManager,
};

verus! {

pub struct ReadRequest {
    pub resource_name: String,
    pub read_offset: i64,
    pub read_limit: i64,
}

pub struct ReadResponse {
    pub data: Vec<u8>,
}

/// One frame of a write stream. The first frame's resource name addresses
/// the upload; later frames belong to the same upload and their name
/// field is not consulted.
pub struct WriteRequest {
    pub resource_name: String,
    pub write_offset: i64,
    pub finish_write: bool,
    pub data: Vec<u8>,
}

pub struct WriteResponse {
    pub committed_size: i64,
}

pub struct QueryWriteStatusRequest {
    pub resource_name: String,
}

pub struct QueryWriteStatusResponse {
    pub committed_size: i64,
    pub complete: bool,
}

/// The bytes the first `k` frames carry, concatenated in frame order.
pub open spec fn frames_data_upto(frames: Seq<WriteRequest>, k: int) -> Seq<u8>
    decreases k,
{
    if k <= 0 {
        Seq::empty()
    } else {
        frames_data_upto(frames, k - 1) + frames[k - 1].data@
    }
}

/// The staging bytes an upload holds before a write stream runs: what an
/// interrupted stream left behind, or nothing.
pub open spec fn staged_base(st: StoreKind, u: Seq<char>) -> Seq<u8> {
    if st.staged().contains_key(u) {
        st.staged()[u].0
    } else {
        Seq::empty()
    }
}

/// The name parses, names an upload session, and carries a digest the
/// library can represent.
pub open spec fn write_name_ok(s: Seq<char>) -> bool {
    &&& parse_resource_spec(s) is Some
    &&& parse_resource_spec(s)->Some_0.uuid is Some
    &&& hexstr::is_hex_text(parse_resource_spec(s)->Some_0.hash)
    &&& parse_resource_spec(s)->Some_0.hash.len() == 2 * HASH_LEN
    &&& parse_resource_spec(s)->Some_0.size <= i64::MAX
}

/// The byte-transfer protocol handler.
pub struct ByteStreamService {
    stores: StoreManager,
}

impl ByteStreamService {
    pub closed spec fn wf(&self) -> bool {
        self.stores.wf()
    }

    pub closed spec fn table(&self) -> Map<Seq<char>, StoreKind> {
        self.stores.table()
    }

    pub fn new(stores: StoreManager) -> (r: Self)
        requires
            stores.wf(),
        ensures
            r.wf(),
            r.table() == stores.table(),
    {
        Self { stores }
    }

    /// Hands the store table back, so one table can serve several
    /// handlers in turn.
    pub fn into_stores(self) -> (r: StoreManager)
        ensures
            r.wf() == self.wf(),
            r.table() == self.table(),
    {
        self.stores
    }

    /// Serves a ranged read as one response frame holding exactly
    /// `min(read_limit, size - read_offset)` bytes. A zero limit is a
    /// single empty frame, not an error; negative or unrepresentable
    /// offsets and limits, a malformed name, an unknown tenant, an absent
    /// digest, and an offset past the end each fail with their own error.
    pub fn read(&self, request: ReadRequest) -> (r: Result<ReadResponse, Error>)
        requires
            self.wf(),
        ensures
            ({
                let s = request.resource_name@;
                if request.read_limit < 0 || request.read_limit > usize::MAX {
                    r matches Err(Error::ConversionIntError(_))
                } else if request.read_limit == 0 {
                    r matches Ok(resp) && resp.data@ == Seq::<u8>::empty()
                } else if request.read_offset < 0 || request.read_offset > usize::MAX {
                    r matches Err(Error::ConversionIntError(_))
                } else if parse_resource_spec(s) is None {
                    r matches Err(Error::InvalidResourceName(t)) && t@ == s
                } else {
                    let rn = parse_resource_spec(s)->Some_0;
                    if !(hexstr::is_hex_text(rn.hash) && rn.hash.len() == 2 * HASH_LEN && rn.size
                        <= i64::MAX) {
                        r matches Err(Error::InvalidDigestParts(_))
                    } else {
                        let key = (hexstr::hex_decode(rn.hash), rn.size);
                        if !self.table().contains_key(rn.instance) {
                            r matches Err(Error::StoreNotFound(n)) && n@ == rn.instance
                        } else {
                            let c = self.table()[rn.instance].contents();
                            if !c.contains_key(key) {
                                r matches Err(Error::DigestInfoNotFound(h)) && h@
                                    == hexstr::hex_encode(key.0)
                            } else if request.read_offset > c[key].len() {
                                r matches Err(Error::InvalidRange)
                            } else {
                                r matches Ok(resp) && resp.data@ == c[key].subrange(
                                    request.read_offset as int,
                                    request.read_offset + vstd::math::min(
                                        request.read_limit as int,
                                        c[key].len() - request.read_offset,
                                    ),
                                )
                            }
                        }
                    }
                }
            }),
    {
        if request.read_limit < 0 || request.read_limit as u64 > usize::MAX as u64 {
            return Err(
                Error::ConversionIntError(
                    "`read_limit` could not be converted into a valid usize".to_owned(),
                ),
            );
        }
        let read_limit = request.read_limit as usize;
        if read_limit == 0 {
            return Ok(ReadResponse { data: Vec::new() });
        }
        if request.read_offset < 0 || request.read_offset as u64 > usize::MAX as u64 {
            return Err(
                Error::ConversionIntError(
                    "`read_offset` could not be converted into a valid usize".to_owned(),
                ),
            );
        }
        let read_offset = request.read_offset as usize;
        let rn = match ResourceName::parse(request.resource_name.as_str()) {
            Ok(rn) => rn,
            Err(e) => {
                return Err(e);
            },
        };
        let digest = match DigestInfo::try_new(rn.hash.as_str(), rn.size) {
            Ok(d) => d,
            Err(e) => {
                return Err(e);
            },
        };
        let idx = match self.stores.get_store_index(&rn.instance_name) {
            Ok(i) => i,
            Err(e) => {
                return Err(e);
            },
        };
        let store = self.stores.store_ref(idx);
        proof {
            lemma_table_lookup(self.stores, idx as int);
        }
        match store.get_chunk(&digest, read_offset, read_limit) {
            Ok(data) => Ok(ReadResponse { data }),
            Err(e) => Err(e),
        }
    }

    /// Runs one write stream: opens or resumes the upload the first
    /// frame's name addresses, appends each frame's bytes in order
    /// (checking each frame's offset against the bytes already
    /// accumulated), and finalizes on the frame marked final, verifying
    /// the accumulated payload's size and hash against the name's digest.
    /// A stream for an already-committed upload succeeds again without
    /// rewriting anything; a stream that ends without a final frame keeps
    /// its staging buffer for resumption and reports `IncompleteWrite`.
    pub fn write(&mut self, requests: &Vec<WriteRequest>) -> (r: Result<WriteResponse, Error>)
        requires
            old(self).wf(),
        ensures
            final(self).wf(),
            match r {
                Ok(resp) => ({
                    &&& requests@.len() > 0
                    &&& write_name_ok(requests@[0].resource_name@)
                    &&& ({
                        let rn = parse_resource_spec(requests@[0].resource_name@)->Some_0;
                        let u = rn.uuid->Some_0;
                        let d = (hexstr::hex_decode(rn.hash), rn.size);
                        let s_old = old(self).table()[rn.instance];
                        let s_new = final(self).table()[rn.instance];
                        &&& old(self).table().contains_key(rn.instance)
                        &&& final(self).table() == old(self).table().insert(rn.instance, s_new)
                        &&& s_new.committed().contains_key(u)
                        &&& resp.committed_size == s_new.committed()[u].1
                        &&& if s_old.committed().contains_key(u) {
                            s_new == s_old
                        } else {
                            &&& s_new.committed() == s_old.committed().insert(u, d)
                            &&& s_new.staged() == s_old.staged().remove(u)
                            &&& s_new.contents().contains_key(d)
                            &&& s_new.contents()[d].len() == d.1
                            &&& sha256_of(s_new.contents()[d]) == d.0
                            &&& exists|f: int|
                                0 <= f < requests@.len() && (#[trigger] requests@[f]).finish_write
                                    && s_new.contents()[d] == staged_base(s_old, u)
                                    + frames_data_upto(requests@, f + 1)
                        }
                    })
                }),
                Err(Error::IncompleteWrite(_)) => requests@.len() == 0 || forall|k: int|
                    0 <= k < requests@.len() ==> !(#[trigger] requests@[k]).finish_write,
                Err(Error::InvalidResourceName(t)) => {
                    &&& requests@.len() > 0
                    &&& t@ == requests@[0].resource_name@
                    &&& (parse_resource_spec(t@) is None || parse_resource_spec(
                        t@,
                    )->Some_0.uuid is None)
                },
                Err(Error::InvalidDigestParts(_)) => {
                    &&& requests@.len() > 0
                    &&& parse_resource_spec(requests@[0].resource_name@) is Some
                    &&& !write_name_ok(requests@[0].resource_name@)
                },
                Err(Error::StoreNotFound(n)) => {
                    &&& requests@.len() > 0
                    &&& write_name_ok(requests@[0].resource_name@)
                    &&& !old(self).table().contains_key(
                        parse_resource_spec(requests@[0].resource_name@)->Some_0.instance,
                    )
                    &&& n@ == parse_resource_spec(requests@[0].resource_name@)->Some_0.instance
                },
                Err(Error::ConversionIntError(_)) => {
                    &&& requests@.len() > 0
                    &&& write_name_ok(requests@[0].resource_name@)
                    &&& exists|k: int|
                        0 <= k < requests@.len() && (#[trigger] requests@[k]).write_offset < 0
                },
                Err(Error::OutOfOrderWrite(_)) => ({
                    let rn = parse_resource_spec(requests@[0].resource_name@)->Some_0;
                    let u = rn.uuid->Some_0;
                    let s_old = old(self).table()[rn.instance];
                    &&& requests@.len() > 0
                    &&& write_name_ok(requests@[0].resource_name@)
                    &&& old(self).table().contains_key(rn.instance)
                    &&& ({
                        ||| (s_old.staged().contains_key(u) && s_old.staged()[u].1)
                        ||| exists|k: int|
                            0 <= k < requests@.len() && (#[trigger] requests@[k]).write_offset
                                != staged_base(s_old, u).len() + frames_data_upto(
                                requests@,
                                k,
                            ).len()
                    })
                }),
                Err(Error::DigestMismatch) => ({
                    let rn = parse_resource_spec(requests@[0].resource_name@)->Some_0;
                    let u = rn.uuid->Some_0;
                    let d = (hexstr::hex_decode(rn.hash), rn.size);
                    let s_old = old(self).table()[rn.instance];
                    &&& requests@.len() > 0
                    &&& write_name_ok(requests@[0].resource_name@)
                    &&& old(self).table().contains_key(rn.instance)
                    &&& exists|f: int|
                        0 <= f < requests@.len() && (#[trigger] requests@[f]).finish_write && ({
                            let full = staged_base(s_old, u) + frames_data_upto(requests@, f + 1);
                            !(full.len() == d.1 && sha256_of(full) == d.0)
                        })
                }),
                Err(_) => false,
            },
    {
        if requests.len() == 0 {
            return Err(Error::IncompleteWrite(String::new()));
        }
        let rn = match ResourceName::parse(requests[0].resource_name.as_str()) {
            Ok(rn) => rn,
            Err(e) => {
                return Err(e);
            },
        };
        let uuid = match rn.uuid {
            Some(u) => u,
            None => {
                return Err(Error::InvalidResourceName(requests[0].resource_name.clone()));
            },
        };
        let digest = match DigestInfo::try_new(rn.hash.as_str(), rn.size) {
            Ok(d) => d,
            Err(e) => {
                return Err(e);
            },
        };
        let idx = match self.stores.get_store_index(&rn.instance_name) {
            Ok(i) => i,
            Err(e) => {
                return Err(e);
            },
        };
        proof {
            lemma_table_lookup(self.stores, idx as int);
        }
        let ghost orig = *self;
        let ghost name = rn.instance_name@;
        let ghost u = uuid@;
        let mut committed_already = false;
        {
            let store = self.stores.store_ref(idx);
            match store.upload_status(uuid.as_str()) {
                Ok((_, complete)) => {
                    if complete {
                        committed_already = true;
                    }
                },
                Err(_) => {},
            }
        }
        if committed_already {
            let store = self.stores.store_mut(idx);
            let d = match store.finalize_write(uuid.as_str(), &digest) {
                Ok(d) => d,
                Err(e) => {
                    proof {
                        assert(false);
                    }
                    return Err(e);
                },
            };
            proof {
                lemma_table_after_store_update(orig.stores, self.stores, idx as int);
                assert(self.stores.table() =~= orig.stores.table().insert(
                    name,
                    self.stores.store_at(idx as int),
                ));
            }
            return Ok(WriteResponse { committed_size: d.size_bytes });
        }
        {
            let store = self.stores.store_mut(idx);
            store.begin_write(uuid.as_str());
            proof {
                lemma_table_after_store_update(orig.stores, self.stores, idx as int);
            }
        }
        let ghost s_old = orig.stores.store_at(idx as int);
        let ghost base = staged_base(s_old, u);
        proof {
            assert(frames_data_upto(requests@, 0) == Seq::<u8>::empty());
            assert(base + Seq::<u8>::empty() =~= base);
        }
        let mut k: usize = 0;
        while k < requests.len()
            invariant
                orig == *old(self),
                orig.wf(),
                self.wf(),
                idx < orig.stores.count(),
                orig.stores.name_at(idx as int) == name,
                orig.stores.table().contains_key(name),
                s_old == orig.stores.store_at(idx as int),
                s_old == orig.stores.table()[name],
                s_old.wf(),
                !s_old.committed().contains_key(u),
                requests@.len() > 0,
                write_name_ok(requests@[0].resource_name@),
                name == parse_resource_spec(requests@[0].resource_name@)->Some_0.instance,
                u == parse_resource_spec(requests@[0].resource_name@)->Some_0.uuid->Some_0,
                u == uuid@,
                digest.wf(),
                digest@ == (
                    hexstr::hex_decode(
                        parse_resource_spec(requests@[0].resource_name@)->Some_0.hash,
                    ),
                    parse_resource_spec(requests@[0].resource_name@)->Some_0.size,
                ),
                self.stores.count() == orig.stores.count(),
                forall|j: int|
                    0 <= j < orig.stores.count() ==> self.stores.name_at(j)
                        == orig.stores.name_at(j),
                forall|j: int|
                    0 <= j < orig.stores.count() && j != idx ==> self.stores.store_at(j)
                        == orig.stores.store_at(j),
                self.stores.table() == orig.stores.table().insert(
                    name,
                    self.stores.store_at(idx as int),
                ),
                self.stores.store_at(idx as int).wf(),
                self.stores.store_at(idx as int).committed() == s_old.committed(),
                self.stores.store_at(idx as int).contents() == s_old.contents(),
                self.stores.store_at(idx as int).staged().contains_key(u),
                self.stores.store_at(idx as int).staged().remove(u) == s_old.staged().remove(u),
                base == staged_base(s_old, u),
                self.stores.store_at(idx as int).staged()[u].0 == base + frames_data_upto(
                    requests@,
                    k as int,
                ),
                self.stores.store_at(idx as int).staged()[u].1 ==> (k == 0
                    && s_old.staged().contains_key(u) && s_old.staged()[u].1),
                k <= requests@.len(),
                forall|j: int| 0 <= j < k ==> !(#[trigger] requests@[j]).finish_write,
                forall|j: int|
                    0 <= j < k ==> (#[trigger] requests@[j]).write_offset == base.len()
                        + frames_data_upto(requests@, j).len(),
            decreases requests@.len() - k,
        {
            let off = requests[k].write_offset;
            if off < 0 {
                proof {
                    assert((requests@[k as int]).write_offset < 0);
                }
                return Err(
                    Error::ConversionIntError(
                        "`write_offset` could not be converted into a valid u64".to_owned(),
                    ),
                );
            }
            let cur_len: u64 = {
                let store = self.stores.store_ref(idx);
                match store.upload_status(uuid.as_str()) {
                    Ok((n, _)) => n,
                    Err(_) => {
                        proof {
                            assert(false);
                        }
                        0
                    },
                }
            };
            if off as u64 != cur_len {
                proof {
                    assert((requests@[k as int]).write_offset != base.len() + frames_data_upto(
                        requests@,
                        k as int,
                    ).len());
                }
                return Err(Error::OutOfOrderWrite(uuid));
            }
            let finish = requests[k].finish_write;
            {
                let ghost before = *self;
                let store = self.stores.store_mut(idx);
                match store.write_chunk(uuid.as_str(), &requests[k].data, finish) {
                    Ok(()) => {},
                    Err(e) => {
                        proof {
                            lemma_table_after_store_update(
                                before.stores,
                                self.stores,
                                idx as int,
                            );
                            assert(e matches Error::OutOfOrderWrite(_));
                        }
                        return Err(e);
                    },
                }
                proof {
                    lemma_table_after_store_update(before.stores, self.stores, idx as int);
                    assert(self.stores.table() =~= orig.stores.table().insert(
                        name,
                        self.stores.store_at(idx as int),
                    ));
                    assert(self.stores.store_at(idx as int).staged().remove(u)
                        =~= s_old.staged().remove(u));
                    assert(frames_data_upto(requests@, k + 1) == frames_data_upto(
                        requests@,
                        k as int,
                    ) + requests@[k as int].data@);
                    assert(self.stores.store_at(idx as int).staged()[u].0 =~= base
                        + frames_data_upto(requests@, k + 1));
                }
            }
            if finish {
                let ghost before = *self;
                let store = self.stores.store_mut(idx);
                let ghost staged_now = before.stores.store_at(idx as int).staged()[u].0;
                let d = match store.finalize_write(uuid.as_str(), &digest) {
                    Ok(d) => d,
                    Err(e) => {
                        proof {
                            lemma_table_after_store_update(
                                before.stores,
                                self.stores,
                                idx as int,
                            );
                            assert(e matches Error::DigestMismatch);
                            assert((requests@[k as int]).finish_write);
                            assert(staged_now == base + frames_data_upto(requests@, k + 1));
                            assert(!(staged_now.len() == digest@.1 && sha256_of(staged_now)
                                == digest@.0));
                        }
                        return Err(e);
                    },
                };
                proof {
                    lemma_table_after_store_update(before.stores, self.stores, idx as int);
                    assert(self.stores.table() =~= orig.stores.table().insert(
                        name,
                        self.stores.store_at(idx as int),
                    ));
                    let s_new = self.stores.store_at(idx as int);
                    assert(s_new.staged() =~= s_old.staged().remove(u));
                    assert(s_new.contents().contains_key(digest@));
                    assert((requests@[k as int]).finish_write);
                    assert(s_new.contents()[digest@] == staged_now);
                    assert(staged_now == base + frames_data_upto(requests@, k + 1));
                }
                return Ok(WriteResponse { committed_size: digest.size_bytes });
            }
            k = k + 1;
        }
        Err(Error::IncompleteWrite(uuid))
    }

    /// Reports how many bytes an upload holds and whether it is complete,
    /// so a client can resume an interrupted write from that offset. An
    /// upload id with no committed and no in-progress state is `NotFound`.
    pub fn query_write_status(&self, request: QueryWriteStatusRequest) -> (r: Result<
        QueryWriteStatusResponse,
        Error,
    >)
        requires
            self.wf(),
        ensures
            ({
                let s = request.resource_name@;
                if parse_resource_spec(s) is None || parse_resource_spec(s)->Some_0.uuid is None {
                    r matches Err(Error::InvalidResourceName(t)) && t@ == s
                } else {
                    let rn = parse_resource_spec(s)->Some_0;
                    let u = rn.uuid->Some_0;
                    if !self.table().contains_key(rn.instance) {
                        r matches Err(Error::StoreNotFound(n)) && n@ == rn.instance
                    } else {
                        let st = self.table()[rn.instance];
                        if st.committed().contains_key(u) {
                            if st.committed()[u].1 <= i64::MAX {
                                r matches Ok(resp) && resp.complete && resp.committed_size
                                    == st.committed()[u].1
                            } else {
                                r matches Err(Error::ConversionIntError(_))
                            }
                        } else if st.staged().contains_key(u) {
                            if st.staged()[u].0.len() <= i64::MAX {
                                r matches Ok(resp) && !resp.complete && resp.committed_size
                                    == st.staged()[u].0.len()
                            } else {
                                r matches Err(Error::ConversionIntError(_))
                            }
                        } else {
                            r matches Err(Error::UploadNotFound(u2)) && u2@ == u
                        }
                    }
                }
            }),
    {
        let rn = match ResourceName::parse(request.resource_name.as_str()) {
            Ok(rn) => rn,
            Err(e) => {
                return Err(e);
            },
        };
        let uuid = match rn.uuid {
            Some(u) => u,
            None => {
                return Err(Error::InvalidResourceName(request.resource_name.clone()));
            },
        };
        let idx = match self.stores.get_store_index(&rn.instance_name) {
            Ok(i) => i,
            Err(e) => {
                return Err(e);
            },
        };
        let store = self.stores.store_ref(idx);
        proof {
            lemma_table_lookup(self.stores, idx as int);
        }
        match store.upload_status(uuid.as_str()) {
            Ok((n, complete)) => {
                if n > i64::MAX as u64 {
                    return Err(
                        Error::ConversionIntError(
                            "`committed_size` could not be converted into a valid i64".to_owned(),
                        ),
                    );
                }
                Ok(QueryWriteStatusResponse { committed_size: n as i64, complete })
            },
            Err(e) => Err(e),
        }
    }
}

} // verus!
