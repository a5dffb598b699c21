//! The in-memory reference store: a capacity-bounded cache from digest to
//! payload, plus the staging buffers of in-flight uploads. The bound is a
//! fixed entry count; when a new key arrives at capacity the oldest entry
//! is evicted, first in, first out.
use vstd::prelude::*;

use crate::assoc::{
    assoc_map, lemma_assoc_map_contains, lemma_assoc_map_index, lemma_assoc_map_push,
    lemma_assoc_map_remove, lemma_assoc_map_update, unique_keys,
};
use crate::digest::{bytes_eq, DigestInfo};
use crate::errors::Error;
use crate::hashing::{sha256, sha256_of};
use crate::store::Store;

verus! {

/// One committed cache entry: a digest and the payload it names.
struct Entry {
    digest: DigestInfo,
    payload: Vec<u8>,
}

/// The staging buffer of one in-flight upload.
struct StagingBuf {
    data: Vec<u8>,
    finished: bool,
}

spec fn entry_pairs(s: Seq<Entry>) -> Seq<((Seq<u8>, int), Seq<u8>)> {
    s.map_values(|e: Entry| (e.digest@, e.payload@))
}

spec fn staging_pairs(s: Seq<(String, StagingBuf)>) -> Seq<(Seq<char>, (Seq<u8>, bool))> {
    s.map_values(|p: (String, StagingBuf)| (p.0@, (p.1.data@, p.1.finished)))
}

spec fn committed_pairs(s: Seq<(String, DigestInfo)>) -> Seq<(Seq<char>, (Seq<u8>, int))> {
    s.map_values(|p: (String, DigestInfo)| (p.0@, p.1@))
}

/// A committed entry carries a well-formed digest that its payload
/// actually matches in both size and hash.
spec fn entry_wf(e: Entry) -> bool {
    &&& e.digest.wf()
    &&& e.payload@.len() == e.digest@.1
    &&& sha256_of(e.payload@) == e.digest@.0
}

/// A reference store backed by an in-process bounded cache.
pub struct MemoryStore {
    capacity: usize,
    entries: Vec<Entry>,
    staging: Vec<(String, StagingBuf)>,
    committed_uploads: Vec<(String, DigestInfo)>,
}

impl MemoryStore {
    /// An empty store that holds at most `capacity` committed entries.
    pub fn new(capacity: usize) -> (r: Self)
        requires
            capacity >= 1,
        ensures
            r.wf(),
            r.contents() == Map::<(Seq<u8>, int), Seq<u8>>::empty(),
            r.staged() == Map::<Seq<char>, (Seq<u8>, bool)>::empty(),
            r.committed() == Map::<Seq<char>, (Seq<u8>, int)>::empty(),
            !r.full(),
    {
        let r = Self {
            capacity,
            entries: Vec::new(),
            staging: Vec::new(),
            committed_uploads: Vec::new(),
        };
        proof {
            assert(entry_pairs(r.entries@) =~= Seq::<((Seq<u8>, int), Seq<u8>)>::empty());
            assert(staging_pairs(r.staging@) =~= Seq::<(Seq<char>, (Seq<u8>, bool))>::empty());
            assert(committed_pairs(r.committed_uploads@) =~= Seq::<
                (Seq<char>, (Seq<u8>, int)),
            >::empty());
        }
        r
    }

    fn find_entry(&self, key: &DigestInfo) -> (r: Option<usize>)
        ensures
            match r {
                Some(i) => i < self.entries@.len() && self.entries@[i as int].digest@ == key@,
                None => forall|j: int|
                    0 <= j < self.entries@.len() ==> (#[trigger] self.entries@[j]).digest@ != key@,
            },
    {
        let mut i: usize = 0;
        while i < self.entries.len()
            invariant
                i <= self.entries@.len(),
                forall|j: int|
                    0 <= j < i ==> (#[trigger] self.entries@[j]).digest@ != key@,
            decreases self.entries@.len() - i,
        {
            if self.entries[i].digest.same(key) {
                return Some(i);
            }
            i = i + 1;
        }
        None
    }

    fn find_staging(&self, id: &String) -> (r: Option<usize>)
        ensures
            match r {
                Some(i) => i < self.staging@.len() && self.staging@[i as int].0@ == id@,
                None => forall|j: int|
                    0 <= j < self.staging@.len() ==> (#[trigger] self.staging@[j]).0@ != id@,
            },
    {
        let mut i: usize = 0;
        while i < self.staging.len()
            invariant
                i <= self.staging@.len(),
                forall|j: int| 0 <= j < i ==> (#[trigger] self.staging@[j]).0@ != id@,
            decreases self.staging@.len() - i,
        {
            if self.staging[i].0.eq(id) {
                return Some(i);
            }
            i = i + 1;
        }
        None
    }

    fn find_committed(&self, id: &String) -> (r: Option<usize>)
        ensures
            match r {
                Some(i) => i < self.committed_uploads@.len()
                    && self.committed_uploads@[i as int].0@ == id@,
                None => forall|j: int|
                    0 <= j < self.committed_uploads@.len() ==> (
                    #[trigger] self.committed_uploads@[j]).0@ != id@,
            },
    {
        let mut i: usize = 0;
        while i < self.committed_uploads.len()
            invariant
                i <= self.committed_uploads@.len(),
                forall|j: int|
                    0 <= j < i ==> (#[trigger] self.committed_uploads@[j]).0@ != id@,
            decreases self.committed_uploads@.len() - i,
        {
            if self.committed_uploads[i].0.eq(id) {
                return Some(i);
            }
            i = i + 1;
        }
        None
    }
}

proof fn lemma_entry_pairs(s: Seq<Entry>)
    ensures
        entry_pairs(s).len() == s.len(),
        forall|i: int|
            0 <= i < s.len() ==> (#[trigger] entry_pairs(s)[i]) == (s[i].digest@, s[i].payload@),
{
}

proof fn lemma_staging_pairs(s: Seq<(String, StagingBuf)>)
    ensures
        staging_pairs(s).len() == s.len(),
        forall|i: int|
            0 <= i < s.len() ==> (#[trigger] staging_pairs(s)[i]) == (
                s[i].0@,
                (s[i].1.data@, s[i].1.finished),
            ),
{
}

proof fn lemma_committed_pairs(s: Seq<(String, DigestInfo)>)
    ensures
        committed_pairs(s).len() == s.len(),
        forall|i: int|
            0 <= i < s.len() ==> (#[trigger] committed_pairs(s)[i]) == (s[i].0@, s[i].1@),
{
}

/// Content addressing holds of everything the store serves: a payload
/// found under a key has exactly the key's size and hashes to the key's
/// hash.
pub proof fn lemma_contents_addressed(s: &MemoryStore)
    requires
        s.wf(),
    ensures
        forall|k: (Seq<u8>, int)|
            s.contents().contains_key(k) ==> {
                &&& (#[trigger] s.contents()[k]).len() == k.1
                &&& sha256_of(s.contents()[k]) == k.0
                &&& k.0.len() == 32
                &&& 0 <= k.1 <= usize::MAX
            },
{
    broadcast use vstd::std_specs::vec::axiom_spec_len;

    let pairs = entry_pairs(s.entries());
    lemma_entry_pairs(s.entries());
    assert forall|k: (Seq<u8>, int)| s.contents().contains_key(k) implies {
        &&& (#[trigger] s.contents()[k]).len() == k.1
        &&& sha256_of(s.contents()[k]) == k.0
        &&& k.0.len() == 32
        &&& 0 <= k.1 <= usize::MAX
    } by {
        lemma_assoc_map_contains(pairs, k);
        let i = choose|i: int| 0 <= i < pairs.len() && (#[trigger] pairs[i]).0 == k;
        lemma_assoc_map_index(pairs, i);
        assert(vstd::std_specs::vec::spec_vec_len(&s.entries()[i].payload) == s.entries()[i].payload@.len());
    }
}

impl MemoryStore {
    /// The committed entry sequence, for the module's own proofs.
    spec fn entries(&self) -> Seq<Entry> {
        self.entries@
    }
}

impl Store for MemoryStore {
    closed spec fn wf(&self) -> bool {
        &&& self.capacity >= 1
        &&& self.entries@.len() <= self.capacity
        &&& unique_keys(entry_pairs(self.entries@))
        &&& forall|i: int| 0 <= i < self.entries@.len() ==> entry_wf(#[trigger] self.entries@[i])
        &&& unique_keys(staging_pairs(self.staging@))
        &&& unique_keys(committed_pairs(self.committed_uploads@))
        &&& forall|i: int, j: int|
            0 <= i < self.staging@.len() && 0 <= j < self.committed_uploads@.len() ==> (
            #[trigger] self.staging@[i]).0@ != (#[trigger] self.committed_uploads@[j]).0@
        &&& forall|i: int|
            0 <= i < self.committed_uploads@.len() ==> (#[trigger] self.committed_uploads@[i]).1.wf()
    }

    closed spec fn contents(&self) -> Map<(Seq<u8>, int), Seq<u8>> {
        assoc_map(entry_pairs(self.entries@))
    }

    closed spec fn staged(&self) -> Map<Seq<char>, (Seq<u8>, bool)> {
        assoc_map(staging_pairs(self.staging@))
    }

    closed spec fn committed(&self) -> Map<Seq<char>, (Seq<u8>, int)> {
        assoc_map(committed_pairs(self.committed_uploads@))
    }

    closed spec fn full(&self) -> bool {
        self.entries@.len() >= self.capacity
    }

    closed spec fn oldest_key(&self) -> (Seq<u8>, int) {
        self.entries@[0].digest@
    }

    fn contains_key(&self, key: &DigestInfo) -> (r: bool) {
        proof {
            lemma_entry_pairs(self.entries@);
            lemma_assoc_map_contains(entry_pairs(self.entries@), key@);
        }
        match self.find_entry(key) {
            Some(i) => {
                proof {
                    assert(entry_pairs(self.entries@)[i as int].0 == key@);
                }
                true
            },
            None => {
                proof {
                    assert forall|j: int| 0 <= j < entry_pairs(self.entries@).len() implies (
                    #[trigger] entry_pairs(self.entries@)[j]).0 != key@ by {
                        assert(self.entries@[j].digest@ != key@);
                    }
                }
                false
            },
        }
    }

    fn get_chunk(&self, key: &DigestInfo, offset: usize, limit: usize) -> (r: Result<
        Vec<u8>,
        Error,
    >) {
        proof {
            lemma_entry_pairs(self.entries@);
            lemma_assoc_map_contains(entry_pairs(self.entries@), key@);
        }
        let i = match self.find_entry(key) {
            Some(i) => i,
            None => {
                proof {
                    assert forall|j: int| 0 <= j < entry_pairs(self.entries@).len() implies (
                    #[trigger] entry_pairs(self.entries@)[j]).0 != key@ by {
                        assert(self.entries@[j].digest@ != key@);
                    }
                }
                return Err(Error::DigestInfoNotFound(key.hash()));
            },
        };
        proof {
            lemma_assoc_map_index(entry_pairs(self.entries@), i as int);
        }
        let payload = &self.entries[i].payload;
        if offset > payload.len() {
            return Err(Error::InvalidRange);
        }
        let remaining = payload.len() - offset;
        let n = if limit < remaining {
            limit
        } else {
            remaining
        };
        let mut out: Vec<u8> = Vec::new();
        let mut j: usize = 0;
        while j < n
            invariant
                j <= n,
                offset + n <= payload@.len(),
                payload@.len() <= usize::MAX,
                out@ =~= payload@.subrange(offset as int, offset + j),
            decreases n - j,
        {
            out.push(payload[offset + j]);
            j = j + 1;
            assert(out@ =~= payload@.subrange(offset as int, offset + j));
        }
        Ok(out)
    }

    fn put_verified(&mut self, expected: &DigestInfo, data: Vec<u8>) -> (r: Result<
        DigestInfo,
        Error,
    >) {
        let h = sha256(&data);
        let size_ok = data.len() as u64 == expected.size_bytes as u64;
        let hash_ok = bytes_eq(&h, &expected.packed_hash);
        if !(size_ok && hash_ok) {
            return Err(Error::DigestMismatch);
        }
        proof {
            lemma_entry_pairs(self.entries@);
            lemma_assoc_map_contains(entry_pairs(self.entries@), expected@);
        }
        let ghost old_pairs = entry_pairs(self.entries@);
        match self.find_entry(expected) {
            Some(j) => {
                proof {
                    lemma_assoc_map_index(old_pairs, j as int);
                }
                let mut e = self.entries.remove(j);
                e.payload = data;
                self.entries.insert(j, e);
                proof {
                    assert(entry_pairs(self.entries@) =~= old_pairs.update(
                        j as int,
                        (old_pairs[j as int].0, entry_pairs(self.entries@)[j as int].1),
                    ));
                    lemma_assoc_map_update(
                        old_pairs,
                        j as int,
                        entry_pairs(self.entries@)[j as int].1,
                    );
                    assert(staging_pairs(self.staging@) == staging_pairs(old(self).staging@));
                }
            },
            None => {
                proof {
                    assert forall|jj: int| 0 <= jj < old_pairs.len() implies (
                    #[trigger] old_pairs[jj]).0 != expected@ by {
                        assert(self.entries@[jj].digest@ != expected@);
                    }
                }
                if self.entries.len() >= self.capacity {
                    let ghost pre = entry_pairs(self.entries@);
                    self.entries.remove(0);
                    proof {
                        assert(entry_pairs(self.entries@) =~= pre.remove(0));
                        lemma_assoc_map_remove(pre, 0);
                    }
                }
                let ghost mid_pairs = entry_pairs(self.entries@);
                self.entries.push(Entry { digest: expected.clone(), payload: data });
                proof {
                    let ep = entry_pairs(self.entries@);
                    assert(ep =~= mid_pairs.push((expected@, ep[ep.len() - 1].1)));
                    lemma_assoc_map_push(mid_pairs, expected@, ep[ep.len() - 1].1);
                    lemma_assoc_map_contains(mid_pairs, expected@);
                    assert forall|a: int, b: int|
                        0 <= a < b < ep.len() implies (#[trigger] ep[a]).0 != (
                    #[trigger] ep[b]).0 by {
                        if b < ep.len() - 1 {
                            assert(mid_pairs[a].0 == ep[a].0 && mid_pairs[b].0 == ep[b].0);
                        } else {
                            assert(mid_pairs[a].0 == ep[a].0);
                            if ep[a].0 == expected@ {
                                lemma_assoc_map_index(mid_pairs, a);
                            }
                        }
                    }
                }
            },
        }
        Ok(expected.clone())
    }

    fn begin_write(&mut self, upload_id: &str) {
        let id_s = upload_id.to_owned();
        proof {
            lemma_staging_pairs(self.staging@);
            lemma_committed_pairs(self.committed_uploads@);
            lemma_assoc_map_contains(staging_pairs(self.staging@), id_s@);
            lemma_assoc_map_contains(committed_pairs(self.committed_uploads@), id_s@);
        }
        if let Some(i) = self.find_staging(&id_s) {
            proof {
                assert(staging_pairs(self.staging@)[i as int].0 == id_s@);
            }
            return ;
        }
        proof {
            assert forall|j: int| 0 <= j < staging_pairs(self.staging@).len() implies (
            #[trigger] staging_pairs(self.staging@)[j]).0 != id_s@ by {
                assert(self.staging@[j].0@ != id_s@);
            }
        }
        if let Some(c) = self.find_committed(&id_s) {
            proof {
                assert(committed_pairs(self.committed_uploads@)[c as int].0 == id_s@);
            }
            return ;
        }
        proof {
            assert forall|j: int|
                0 <= j < committed_pairs(self.committed_uploads@).len() implies (
            #[trigger] committed_pairs(self.committed_uploads@)[j]).0 != id_s@ by {
                assert(self.committed_uploads@[j].0@ != id_s@);
            }
        }
        let ghost idv = id_s@;
        let ghost pre = staging_pairs(self.staging@);
        self.staging.push((id_s, StagingBuf { data: Vec::new(), finished: false }));
        proof {
            let sp = staging_pairs(self.staging@);
            assert(sp =~= pre.push((idv, (Seq::<u8>::empty(), false))));
            lemma_assoc_map_push(pre, idv, (Seq::<u8>::empty(), false));
        }
    }

    fn write_chunk(&mut self, upload_id: &str, data: &Vec<u8>, is_final: bool) -> (r: Result<
        (),
        Error,
    >) {
        let id_s = upload_id.to_owned();
        proof {
            lemma_staging_pairs(self.staging@);
            lemma_assoc_map_contains(staging_pairs(self.staging@), id_s@);
        }
        let i = match self.find_staging(&id_s) {
            Some(i) => i,
            None => {
                proof {
                    assert forall|j: int| 0 <= j < staging_pairs(self.staging@).len() implies (
                    #[trigger] staging_pairs(self.staging@)[j]).0 != id_s@ by {
                        assert(self.staging@[j].0@ != id_s@);
                    }
                }
                return Err(Error::UploadNotFound(id_s));
            },
        };
        proof {
            lemma_assoc_map_index(staging_pairs(self.staging@), i as int);
        }
        if self.staging[i].1.finished {
            return Err(Error::OutOfOrderWrite(id_s));
        }
        let ghost pre = staging_pairs(self.staging@);
        let (sid, mut buf) = self.staging.remove(i);
        let ghost orig_data = buf.data@;
        let mut k: usize = 0;
        while k < data.len()
            invariant
                k <= data@.len(),
                buf.data@ =~= orig_data + data@.subrange(0, k as int),
            decreases data@.len() - k,
        {
            buf.data.push(data[k]);
            k = k + 1;
            assert(buf.data@ =~= orig_data + data@.subrange(0, k as int));
        }
        assert(buf.data@ =~= orig_data + data@);
        buf.finished = is_final;
        self.staging.insert(i, (sid, buf));
        proof {
            let sp = staging_pairs(self.staging@);
            assert(sp =~= pre.update(i as int, (pre[i as int].0, (orig_data + data@, is_final))));
            lemma_assoc_map_update(pre, i as int, (orig_data + data@, is_final));
            assert forall|a: int, b: int|
                0 <= a < self.staging@.len() && 0 <= b < self.committed_uploads@.len() implies (
            #[trigger] self.staging@[a]).0@ != (#[trigger] self.committed_uploads@[b]).0@ by {
                assert(self.staging@[a].0@ == old(self).staging@[a].0@);
            }
        }
        Ok(())
    }

    fn finalize_write(&mut self, upload_id: &str, expected: &DigestInfo) -> (r: Result<
        DigestInfo,
        Error,
    >) {
        let id_s = upload_id.to_owned();
        proof {
            lemma_staging_pairs(self.staging@);
            lemma_committed_pairs(self.committed_uploads@);
            lemma_assoc_map_contains(staging_pairs(self.staging@), id_s@);
            lemma_assoc_map_contains(committed_pairs(self.committed_uploads@), id_s@);
        }
        if let Some(c) = self.find_committed(&id_s) {
            proof {
                lemma_assoc_map_index(committed_pairs(self.committed_uploads@), c as int);
            }
            return Ok(self.committed_uploads[c].1.clone());
        }
        proof {
            assert forall|j: int|
                0 <= j < committed_pairs(self.committed_uploads@).len() implies (
            #[trigger] committed_pairs(self.committed_uploads@)[j]).0 != id_s@ by {
                assert(self.committed_uploads@[j].0@ != id_s@);
            }
        }
        let i = match self.find_staging(&id_s) {
            Some(i) => i,
            None => {
                proof {
                    assert forall|j: int| 0 <= j < staging_pairs(self.staging@).len() implies (
                    #[trigger] staging_pairs(self.staging@)[j]).0 != id_s@ by {
                        assert(self.staging@[j].0@ != id_s@);
                    }
                }
                return Err(Error::UploadNotFound(id_s));
            },
        };
        proof {
            lemma_assoc_map_index(staging_pairs(self.staging@), i as int);
        }
        if !self.staging[i].1.finished {
            return Err(Error::OutOfOrderWrite(id_s));
        }
        let ghost pre_staging = staging_pairs(self.staging@);
        let (sid, buf) = self.staging.remove(i);
        proof {
            assert(staging_pairs(self.staging@) =~= pre_staging.remove(i as int));
            lemma_assoc_map_remove(pre_staging, i as int);
        }
        match self.put_verified(expected, buf.data) {
            Ok(d) => {
                let ghost mid = *self;
                let ghost pre_committed = committed_pairs(self.committed_uploads@);
                self.committed_uploads.push((sid, expected.clone()));
                proof {
                    let cp = committed_pairs(self.committed_uploads@);
                    lemma_committed_pairs(mid.committed_uploads@);
                    lemma_committed_pairs(self.committed_uploads@);
                    lemma_staging_pairs(mid.staging@);
                    assert(cp =~= pre_committed.push((id_s@, expected@)));
                    lemma_assoc_map_push(pre_committed, id_s@, expected@);
                    lemma_assoc_map_contains(pre_committed, id_s@);
                    assert(!assoc_map(pre_committed).contains_key(id_s@));
                    assert forall|a: int, b: int| 0 <= a < b < cp.len() implies (
                    #[trigger] cp[a]).0 != (#[trigger] cp[b]).0 by {
                        if b == cp.len() - 1 {
                            assert(cp[a] == pre_committed[a]);
                        } else {
                            assert(cp[a] == pre_committed[a] && cp[b] == pre_committed[b]);
                        }
                    }
                    lemma_assoc_map_contains(staging_pairs(mid.staging@), id_s@);
                    assert(!mid.staged().contains_key(id_s@));
                    assert forall|a: int, b: int|
                        0 <= a < self.staging@.len() && 0 <= b
                            < self.committed_uploads@.len() implies (
                    #[trigger] self.staging@[a]).0@ != (
                    #[trigger] self.committed_uploads@[b]).0@ by {
                        assert(self.staging@[a] == mid.staging@[a]);
                        if b == self.committed_uploads@.len() - 1 {
                            assert(staging_pairs(mid.staging@)[a].0 == mid.staging@[a].0@);
                        } else {
                            assert(self.committed_uploads@[b] == mid.committed_uploads@[b]);
                        }
                    }
                    assert forall|a: int| 0 <= a < self.committed_uploads@.len() implies (
                    #[trigger] self.committed_uploads@[a]).1.wf() by {
                        if a < self.committed_uploads@.len() - 1 {
                            assert(self.committed_uploads@[a] == mid.committed_uploads@[a]);
                        }
                    }
                }
                Ok(d)
            },
            Err(e) => Err(e),
        }
    }

    fn upload_status(&self, upload_id: &str) -> (r: Result<(u64, bool), Error>) {
        let id_s = upload_id.to_owned();
        proof {
            lemma_staging_pairs(self.staging@);
            lemma_committed_pairs(self.committed_uploads@);
            lemma_assoc_map_contains(staging_pairs(self.staging@), id_s@);
            lemma_assoc_map_contains(committed_pairs(self.committed_uploads@), id_s@);
        }
        if let Some(c) = self.find_committed(&id_s) {
            proof {
                lemma_assoc_map_index(committed_pairs(self.committed_uploads@), c as int);
            }
            let sz = self.committed_uploads[c].1.size_bytes;
            return Ok((sz as u64, true));
        }
        proof {
            assert forall|j: int|
                0 <= j < committed_pairs(self.committed_uploads@).len() implies (
            #[trigger] committed_pairs(self.committed_uploads@)[j]).0 != id_s@ by {
                assert(self.committed_uploads@[j].0@ != id_s@);
            }
        }
        match self.find_staging(&id_s) {
            Some(i) => {
                proof {
                    lemma_assoc_map_index(staging_pairs(self.staging@), i as int);
                }
                Ok((self.staging[i].1.data.len() as u64, false))
            },
            None => {
                proof {
                    assert forall|j: int| 0 <= j < staging_pairs(self.staging@).len() implies (
                    #[trigger] staging_pairs(self.staging@)[j]).0 != id_s@ by {
                        assert(self.staging@[j].0@ != id_s@);
                    }
                }
                Err(Error::UploadNotFound(id_s))
            },
        }
    }
}

} // verus!
