//! The storage capability interface every backend provides, the closed set
//! of backend kinds, and the tenant-to-store routing table.
use vstd::prelude::*;

use crate::assoc::{assoc_map, unique_keys};
use crate::digest::DigestInfo;
use crate::errors::Error;
use crate::hashing::sha256_of;
use crate::hexstr;
use crate::instance_name::InstanceName;
use crate::memory::MemoryStore;

verus! {

/// The capability interface of a storage backend: existence check, ranged
/// read, verified insertion, and the chunked, resumable write path.
///
/// A backend is modelled by four maps: `contents` (digest key to payload),
/// `staged` (upload id to accumulated bytes and a finished flag),
/// `committed` (upload id to the digest it finalized into), and by `full`
/// and `oldest_key`, which describe its eviction point.
pub trait Store: Sized {
    spec fn wf(&self) -> bool;

    spec fn contents(&self) -> Map<(Seq<u8>, int), Seq<u8>>;

    spec fn staged(&self) -> Map<Seq<char>, (Seq<u8>, bool)>;

    spec fn committed(&self) -> Map<Seq<char>, (Seq<u8>, int)>;

    /// Whether the next insertion of a new key will evict the oldest entry.
    spec fn full(&self) -> bool;

    /// The key that an insertion under capacity pressure evicts.
    spec fn oldest_key(&self) -> (Seq<u8>, int);

    /// The effect one verified insertion has on the contents: an existing
    /// key is overwritten in place; a new key is added, evicting the oldest
    /// entry when the store is full.
    open spec fn contents_after_put(&self, key: (Seq<u8>, int), data: Seq<u8>) -> Map<
        (Seq<u8>, int),
        Seq<u8>,
    > {
        if self.contents().contains_key(key) {
            self.contents().insert(key, data)
        } else if !self.full() {
            self.contents().insert(key, data)
        } else {
            self.contents().remove(self.oldest_key()).insert(key, data)
        }
    }

    /// Existence check; a plain lookup, no failure.
    fn contains_key(&self, key: &DigestInfo) -> (r: bool)
        requires
            self.wf(),
        ensures
            r == self.contents().contains_key(key@),
    ;

    /// Ranged read: `min(limit, size - offset)` bytes starting at `offset`.
    /// An offset equal to the size yields an empty result, not an error; an
    /// offset past the size is an `InvalidRange` failure; an absent key is
    /// `NotFound`.
    fn get_chunk(&self, key: &DigestInfo, offset: usize, limit: usize) -> (r: Result<
        Vec<u8>,
        Error,
    >)
        requires
            self.wf(),
        ensures
            match r {
                Ok(data) => {
                    &&& self.contents().contains_key(key@)
                    &&& offset <= self.contents()[key@].len()
                    &&& data@ == self.contents()[key@].subrange(
                        offset as int,
                        offset + vstd::math::min(
                            limit as int,
                            self.contents()[key@].len() - offset,
                        ),
                    )
                },
                Err(Error::DigestInfoNotFound(h)) => {
                    &&& !self.contents().contains_key(key@)
                    &&& h@ == hexstr::hex_encode(key.packed_hash@)
                },
                Err(Error::InvalidRange) => {
                    &&& self.contents().contains_key(key@)
                    &&& offset > self.contents()[key@].len()
                },
                Err(_) => false,
            },
    ;

    /// Verifies that `data` hashes to the expected digest and has its
    /// declared size, then commits it; a disagreement is rejected and
    /// changes nothing.
    fn put_verified(&mut self, expected: &DigestInfo, data: Vec<u8>) -> (r: Result<
        DigestInfo,
        Error,
    >)
        requires
            old(self).wf(),
            expected.wf(),
        ensures
            final(self).wf(),
            final(self).staged() == old(self).staged(),
            final(self).committed() == old(self).committed(),
            match r {
                Ok(d) => {
                    &&& data@.len() == expected@.1
                    &&& sha256_of(data@) == expected@.0
                    &&& d@ == expected@
                    &&& final(self).contents() == old(self).contents_after_put(expected@, data@)
                },
                Err(Error::DigestMismatch) => {
                    &&& !(data@.len() == expected@.1 && sha256_of(data@) == expected@.0)
                    &&& final(self).contents() == old(self).contents()
                },
                Err(_) => false,
            },
    ;

    /// Opens an upload session; a no-op when the id is already staged or
    /// committed.
    fn begin_write(&mut self, upload_id: &str)
        requires
            old(self).wf(),
        ensures
            final(self).wf(),
            final(self).contents() == old(self).contents(),
            final(self).committed() == old(self).committed(),
            final(self).full() == old(self).full(),
            if old(self).staged().contains_key(upload_id@) || old(self).committed().contains_key(
                upload_id@,
            ) {
                final(self).staged() == old(self).staged()
            } else {
                final(self).staged() == old(self).staged().insert(
                    upload_id@,
                    (Seq::<u8>::empty(), false),
                )
            },
    ;

    /// Appends a chunk to an open upload, marking it finished when the
    /// chunk is the final one. Chunks for one upload are sequential: a
    /// chunk after the final one is rejected.
    fn write_chunk(&mut self, upload_id: &str, data: &Vec<u8>, is_final: bool) -> (r: Result<
        (),
        Error,
    >)
        requires
            old(self).wf(),
        ensures
            final(self).wf(),
            final(self).contents() == old(self).contents(),
            final(self).committed() == old(self).committed(),
            final(self).full() == old(self).full(),
            match r {
                Ok(()) => {
                    &&& old(self).staged().contains_key(upload_id@)
                    &&& !old(self).staged()[upload_id@].1
                    &&& final(self).staged() == old(self).staged().insert(
                        upload_id@,
                        (old(self).staged()[upload_id@].0 + data@, is_final),
                    )
                },
                Err(Error::UploadNotFound(u)) => {
                    &&& !old(self).staged().contains_key(upload_id@)
                    &&& u@ == upload_id@
                    &&& final(self).staged() == old(self).staged()
                },
                Err(Error::OutOfOrderWrite(u)) => {
                    &&& old(self).staged().contains_key(upload_id@)
                    &&& old(self).staged()[upload_id@].1
                    &&& u@ == upload_id@
                    &&& final(self).staged() == old(self).staged()
                },
                Err(_) => false,
            },
    ;

    /// Finalizes an upload into a committed entry after verifying the
    /// accumulated payload against the expected digest. Finalizing an
    /// already-committed upload id again returns the existing committed
    /// digest and changes nothing; a mismatch discards the staging buffer
    /// and exposes no entry.
    fn finalize_write(&mut self, upload_id: &str, expected: &DigestInfo) -> (r: Result<
        DigestInfo,
        Error,
    >)
        requires
            old(self).wf(),
            expected.wf(),
        ensures
            final(self).wf(),
            match r {
                Ok(d) => {
                    if old(self).committed().contains_key(upload_id@) {
                        &&& *final(self) == *old(self)
                        &&& d@ == old(self).committed()[upload_id@]
                    } else {
                        &&& old(self).staged().contains_key(upload_id@)
                        &&& old(self).staged()[upload_id@].1
                        &&& old(self).staged()[upload_id@].0.len() == expected@.1
                        &&& sha256_of(old(self).staged()[upload_id@].0) == expected@.0
                        &&& d@ == expected@
                        &&& final(self).staged() == old(self).staged().remove(upload_id@)
                        &&& final(self).committed() == old(self).committed().insert(
                            upload_id@,
                            expected@,
                        )
                        &&& final(self).contents() == old(self).contents_after_put(
                            expected@,
                            old(self).staged()[upload_id@].0,
                        )
                    }
                },
                Err(Error::UploadNotFound(u)) => {
                    &&& !old(self).staged().contains_key(upload_id@)
                    &&& !old(self).committed().contains_key(upload_id@)
                    &&& u@ == upload_id@
                    &&& *final(self) == *old(self)
                },
                Err(Error::OutOfOrderWrite(u)) => {
                    &&& old(self).staged().contains_key(upload_id@)
                    &&& !old(self).staged()[upload_id@].1
                    &&& !old(self).committed().contains_key(upload_id@)
                    &&& u@ == upload_id@
                    &&& *final(self) == *old(self)
                },
                Err(Error::DigestMismatch) => {
                    &&& !old(self).committed().contains_key(upload_id@)
                    &&& old(self).staged().contains_key(upload_id@)
                    &&& old(self).staged()[upload_id@].1
                    &&& !(old(self).staged()[upload_id@].0.len() == expected@.1 && sha256_of(
                        old(self).staged()[upload_id@].0,
                    ) == expected@.0)
                    &&& final(self).contents() == old(self).contents()
                    &&& final(self).committed() == old(self).committed()
                    &&& final(self).staged() == old(self).staged().remove(upload_id@)
                },
                Err(_) => false,
            },
    ;

    /// How many bytes an upload holds and whether it is complete: the
    /// digest's size for a committed upload, the accumulated count for one
    /// in progress, and `NotFound` for an unknown id.
    fn upload_status(&self, upload_id: &str) -> (r: Result<(u64, bool), Error>)
        requires
            self.wf(),
        ensures
            match r {
                Ok((n, complete)) => {
                    if self.committed().contains_key(upload_id@) {
                        complete && n == self.committed()[upload_id@].1
                    } else {
                        &&& !complete
                        &&& self.staged().contains_key(upload_id@)
                        &&& n == self.staged()[upload_id@].0.len()
                    }
                },
                Err(Error::UploadNotFound(u)) => {
                    &&& !self.staged().contains_key(upload_id@)
                    &&& !self.committed().contains_key(upload_id@)
                    &&& u@ == upload_id@
                },
                Err(_) => false,
            },
    ;
}

/// The closed set of backend kinds the system can be configured with.
pub enum StoreKind {
    Memory(MemoryStore),
}

impl Store for StoreKind {
    open spec fn wf(&self) -> bool {
        match self {
            StoreKind::Memory(m) => m.wf(),
        }
    }

    open spec fn contents(&self) -> Map<(Seq<u8>, int), Seq<u8>> {
        match self {
            StoreKind::Memory(m) => m.contents(),
        }
    }

    open spec fn staged(&self) -> Map<Seq<char>, (Seq<u8>, bool)> {
        match self {
            StoreKind::Memory(m) => m.staged(),
        }
    }

    open spec fn committed(&self) -> Map<Seq<char>, (Seq<u8>, int)> {
        match self {
            StoreKind::Memory(m) => m.committed(),
        }
    }

    open spec fn full(&self) -> bool {
        match self {
            StoreKind::Memory(m) => m.full(),
        }
    }

    open spec fn oldest_key(&self) -> (Seq<u8>, int) {
        match self {
            StoreKind::Memory(m) => m.oldest_key(),
        }
    }

    fn contains_key(&self, key: &DigestInfo) -> (r: bool) {
        match self {
            StoreKind::Memory(m) => m.contains_key(key),
        }
    }

    fn get_chunk(&self, key: &DigestInfo, offset: usize, limit: usize) -> (r: Result<
        Vec<u8>,
        Error,
    >) {
        match self {
            StoreKind::Memory(m) => m.get_chunk(key, offset, limit),
        }
    }

    fn put_verified(&mut self, expected: &DigestInfo, data: Vec<u8>) -> (r: Result<
        DigestInfo,
        Error,
    >) {
        match self {
            StoreKind::Memory(m) => m.put_verified(expected, data),
        }
    }

    fn begin_write(&mut self, upload_id: &str) {
        match self {
            StoreKind::Memory(m) => m.begin_write(upload_id),
        }
    }

    fn write_chunk(&mut self, upload_id: &str, data: &Vec<u8>, is_final: bool) -> (r: Result<
        (),
        Error,
    >) {
        match self {
            StoreKind::Memory(m) => m.write_chunk(upload_id, data, is_final),
        }
    }

    fn finalize_write(&mut self, upload_id: &str, expected: &DigestInfo) -> (r: Result<
        DigestInfo,
        Error,
    >) {
        match self {
            StoreKind::Memory(m) => m.finalize_write(upload_id, expected),
        }
    }

    fn upload_status(&self, upload_id: &str) -> (r: Result<(u64, bool), Error>) {
        match self {
            StoreKind::Memory(m) => m.upload_status(upload_id),
        }
    }
}

/// The routing table a sequence of tenant/store pairs denotes.
pub open spec fn table_of(s: Seq<(InstanceName, StoreKind)>) -> Map<Seq<char>, StoreKind> {
    assoc_map(s.map_values(|p: (InstanceName, StoreKind)| (p.0@, p.1)))
}

/// Routes a tenant identifier to its backing store. The table is built
/// once at startup and never changes shape afterwards: lookups are pure
/// reads.
pub struct StoreManager {
    stores: Vec<(InstanceName, StoreKind)>,
}

impl StoreManager {
    /// Every registered store is well-formed and every tenant has at most
    /// one store.
    pub closed spec fn wf(&self) -> bool {
        &&& unique_keys(self.stores@.map_values(|p: (InstanceName, StoreKind)| (p.0@, p.1)))
        &&& forall|i: int|
            0 <= i < self.stores@.len() ==> (#[trigger] self.stores@[i]).1.wf()
    }

    pub closed spec fn table(&self) -> Map<Seq<char>, StoreKind> {
        table_of(self.stores@)
    }

    pub closed spec fn count(&self) -> nat {
        self.stores@.len()
    }

    pub closed spec fn name_at(&self, i: int) -> Seq<char> {
        self.stores@[i].0@
    }

    pub closed spec fn store_at(&self, i: int) -> StoreKind {
        self.stores@[i].1
    }

    pub fn new(stores: Vec<(InstanceName, StoreKind)>) -> (r: Self)
        requires
            forall|i: int, j: int|
                0 <= i < j < stores@.len() ==> (#[trigger] stores@[i]).0@ != (#[trigger] stores@[j]).0@,
            forall|i: int| 0 <= i < stores@.len() ==> (#[trigger] stores@[i]).1.wf(),
        ensures
            r.wf(),
            r.table() == table_of(stores@),
    {
        let r = Self { stores };
        proof {
            let pairs = r.stores@.map_values(|p: (InstanceName, StoreKind)| (p.0@, p.1));
            assert forall|i: int, j: int|
                0 <= i < j < pairs.len() implies (#[trigger] pairs[i]).0 != (#[trigger] pairs[j]).0 by {
                assert(pairs[i].0 == (r.stores@[i]).0@);
                assert(pairs[j].0 == (r.stores@[j]).0@);
            }
        }
        r
    }

    /// Looks the tenant's store index up; `StoreNotFound` when the tenant
    /// has no registered store.
    pub fn get_store_index(&self, instance_name: &InstanceName) -> (r: Result<usize, Error>)
        requires
            self.wf(),
        ensures
            match r {
                Ok(i) => {
                    &&& i < self.count()
                    &&& self.name_at(i as int) == instance_name@
                    &&& self.table().contains_key(instance_name@)
                    &&& self.table()[instance_name@] == self.store_at(i as int)
                    &&& self.store_at(i as int).wf()
                },
                Err(Error::StoreNotFound(n)) => {
                    &&& !self.table().contains_key(instance_name@)
                    &&& n@ == instance_name@
                },
                Err(_) => false,
            },
    {
        let ghost pairs = self.stores@.map_values(|p: (InstanceName, StoreKind)| (p.0@, p.1));
        let mut i: usize = 0;
        while i < self.stores.len()
            invariant
                self.wf(),
                i <= self.stores@.len(),
                pairs == self.stores@.map_values(|p: (InstanceName, StoreKind)| (p.0@, p.1)),
                forall|j: int| 0 <= j < i ==> (#[trigger] self.stores@[j]).0@ != instance_name@,
            decreases self.stores@.len() - i,
        {
            if self.stores[i].0.eq(instance_name) {
                proof {
                    crate::assoc::lemma_assoc_map_index(pairs, i as int);
                }
                return Ok(i);
            }
            i = i + 1;
        }
        proof {
            crate::assoc::lemma_assoc_map_contains(pairs, instance_name@);
        }
        Err(Error::StoreNotFound(instance_name.clone()))
    }

    /// Routes a tenant identifier to a shared borrow of its backing
    /// store; `StoreNotFound` when the tenant has no registered store.
    pub fn get_store_by_instance_name(&self, instance_name: &InstanceName) -> (r: Result<
        &StoreKind,
        Error,
    >)
        requires
            self.wf(),
        ensures
            match r {
                Ok(s) => {
                    &&& self.table().contains_key(instance_name@)
                    &&& *s == self.table()[instance_name@]
                    &&& s.wf()
                },
                Err(Error::StoreNotFound(n)) => {
                    &&& !self.table().contains_key(instance_name@)
                    &&& n@ == instance_name@
                },
                Err(_) => false,
            },
    {
        match self.get_store_index(instance_name) {
            Ok(i) => Ok(&self.stores[i].1),
            Err(e) => Err(e),
        }
    }

    /// Borrows the store at a looked-up index for reading.
    pub fn store_ref(&self, i: usize) -> (r: &StoreKind)
        requires
            i < self.count(),
        ensures
            *r == self.store_at(i as int),
    {
        &self.stores[i].1
    }

    /// Borrows the store at a looked-up index for writing. The table keeps
    /// its keys; `lemma_table_after_store_update` relates the table before
    /// and after the borrow.
    pub fn store_mut(&mut self, i: usize) -> (r: &mut StoreKind)
        requires
            i < old(self).count(),
        ensures
            *r == old(self).store_at(i as int),
            final(self).count() == old(self).count(),
            forall|j: int|
                0 <= j < old(self).count() ==> final(self).name_at(j) == old(self).name_at(j),
            forall|j: int|
                0 <= j < old(self).count() && j != i ==> final(self).store_at(j) == old(
                    self,
                ).store_at(j),
            final(self).store_at(i as int) == *final(r),
    {
        let entry = &mut self.stores[i];
        &mut entry.1
    }
}

/// After mutating one store in place, the routing table is the old table
/// with that tenant's store replaced, and the manager is well-formed again
/// as soon as the mutated store is.
pub proof fn lemma_table_after_store_update(m1: StoreManager, m2: StoreManager, i: int)
    requires
        m1.wf(),
        0 <= i < m1.count(),
        m2.count() == m1.count(),
        forall|j: int| 0 <= j < m1.count() ==> m2.name_at(j) == m1.name_at(j),
        forall|j: int| 0 <= j < m1.count() && j != i ==> m2.store_at(j) == m1.store_at(j),
    ensures
        m2.table() == m1.table().insert(m1.name_at(i), m2.store_at(i)),
        m2.store_at(i).wf() ==> m2.wf(),
        m1.table().contains_key(m1.name_at(i)),
        m1.table()[m1.name_at(i)] == m1.store_at(i),
{
    let p1 = m1.stores@.map_values(|p: (InstanceName, StoreKind)| (p.0@, p.1));
    let p2 = m2.stores@.map_values(|p: (InstanceName, StoreKind)| (p.0@, p.1));
    assert forall|j: int| 0 <= j < p1.len() implies (#[trigger] p1[j]).0 == m1.name_at(j)
        && p1[j].1 == m1.store_at(j) by {
        assert(p1[j] == (m1.stores@[j].0@, m1.stores@[j].1));
    }
    assert forall|j: int| 0 <= j < p2.len() implies (#[trigger] p2[j]).0 == m2.name_at(j)
        && p2[j].1 == m2.store_at(j) by {
        assert(p2[j] == (m2.stores@[j].0@, m2.stores@[j].1));
    }
    assert(p2 =~= p1.update(i, (p1[i].0, m2.store_at(i))));
    crate::assoc::lemma_assoc_map_update(p1, i, m2.store_at(i));
    crate::assoc::lemma_assoc_map_index(p1, i);
    if m2.store_at(i).wf() {
        assert forall|j: int| 0 <= j < m2.stores@.len() implies (#[trigger] m2.stores@[j]).1.wf() by {
            if j == i {
                assert(m2.stores@[j].1 == m2.store_at(i));
            } else {
                assert(m2.stores@[j].1 == m1.store_at(j));
                assert((m1.stores@[j]).1.wf());
            }
        }
    }
}

/// Content addressing holds of whatever backend kind serves a payload: a
/// payload found under a key has exactly the key's size, hashes to the
/// key's hash, and its length fits the machine word.
pub proof fn lemma_store_contents_addressed(s: &StoreKind)
    requires
        s.wf(),
    ensures
        forall|k: (Seq<u8>, int)|
            s.contents().contains_key(k) ==> {
                &&& (#[trigger] s.contents()[k]).len() == k.1
                &&& crate::hashing::sha256_of(s.contents()[k]) == k.0
                &&& k.0.len() == 32
                &&& 0 <= k.1 <= usize::MAX
            },
{
    match s {
        StoreKind::Memory(m) => {
            crate::memory::lemma_contents_addressed(m);
            assert(s.contents() == m.contents());
            assert forall|k: (Seq<u8>, int)| s.contents().contains_key(k) implies {
                &&& (#[trigger] s.contents()[k]).len() == k.1
                &&& crate::hashing::sha256_of(s.contents()[k]) == k.0
                &&& k.0.len() == 32
                &&& 0 <= k.1 <= usize::MAX
            } by {
                assert(m.contents().contains_key(k));
                assert(m.contents()[k] == s.contents()[k]);
            }
        },
    }
}

/// A tenant's store can be read straight off the table by its index.
pub proof fn lemma_table_lookup(m: StoreManager, i: int)
    requires
        m.wf(),
        0 <= i < m.count(),
    ensures
        m.table().contains_key(m.name_at(i)),
        m.table()[m.name_at(i)] == m.store_at(i),
{
    let p = m.stores@.map_values(|p: (InstanceName, StoreKind)| (p.0@, p.1));
    assert(p[i] == (m.stores@[i].0@, m.stores@[i].1));
    crate::assoc::lemma_assoc_map_index(p, i);
}

} // verus!
