//! Content digests: the binary identity of a blob (a 32-byte hash and a
//! declared size), its wire form, and the conversions between the two.
use vstd::prelude::*;

use crate::errors::Error;
use crate::hexstr;

verus! {

/// The number of bytes in a packed hash.
pub const HASH_LEN: usize = 32;

/// The textual form of a packed hash: lowercase hexadecimal, two characters
/// per byte.
#[derive(Debug)]
pub struct DigestHash(String);

impl View for DigestHash {
    type V = Seq<char>;

    closed spec fn view(&self) -> Seq<char> {
        self.0@
    }
}

impl DigestHash {
    pub fn as_str(&self) -> (r: &str)
        ensures
            r@ == self@,
    {
        self.0.as_str()
    }
}

impl Clone for DigestHash {
    fn clone(&self) -> (r: Self)
        ensures
            r@ == self@,
    {
        Self(self.0.clone())
    }
}

/// A digest as transmitted on the wire: the hash as hexadecimal text beside
/// the declared size.
#[derive(Debug)]
pub struct Digest {
    pub hash: String,
    pub size_bytes: i64,
}

impl Clone for Digest {
    fn clone(&self) -> (r: Self)
        ensures
            r.hash@ == self.hash@,
            r.size_bytes == self.size_bytes,
    {
        Self { hash: self.hash.clone(), size_bytes: self.size_bytes }
    }
}

/// A well-formed wire digest: 64 hexadecimal hash characters and a
/// non-negative size.
pub open spec fn wire_digest_valid(w: &Digest) -> bool {
    &&& hexstr::is_hex_text(w.hash@)
    &&& w.hash@.len() == 2 * HASH_LEN
    &&& w.size_bytes >= 0
}

/// The store key a well-formed wire digest denotes.
pub open spec fn wire_digest_key(w: &Digest) -> (Seq<u8>, int) {
    (hexstr::hex_decode(w.hash@), w.size_bytes as int)
}

/// The digest info on a chunk of data: the parsed, validated form of a wire
/// digest. A digest is a promise about both hash and size, and the pair is
/// the cache key.
#[derive(Debug)]
pub struct DigestInfo {
    pub size_bytes: i64,
    pub packed_hash: Vec<u8>,
}

impl View for DigestInfo {
    type V = (Seq<u8>, int);

    open spec fn view(&self) -> (Seq<u8>, int) {
        (self.packed_hash@, self.size_bytes as int)
    }
}

impl DigestInfo {
    /// A valid digest holds exactly 32 hash bytes and a non-negative size.
    pub open spec fn wf(&self) -> bool {
        self.packed_hash@.len() == HASH_LEN && self.size_bytes >= 0
    }

    pub fn new(packed_hash: Vec<u8>, size_bytes: i64) -> (r: Self)
        requires
            packed_hash@.len() == HASH_LEN,
            size_bytes >= 0,
        ensures
            r.wf(),
            r@ == (packed_hash@, size_bytes as int),
    {
        Self { size_bytes, packed_hash }
    }

    /// Builds a digest from hexadecimal hash text and a size, failing when
    /// the text is not 64 hexadecimal characters or the size does not fit a
    /// signed 64-bit integer.
    pub fn try_new(hash: &str, size_bytes: usize) -> (r: Result<Self, Error>)
        ensures
            match r {
                Ok(d) => {
                    &&& hexstr::is_hex_text(hash@)
                    &&& hash@.len() == 2 * HASH_LEN
                    &&& size_bytes <= i64::MAX
                    &&& d.wf()
                    &&& d@ == (hexstr::hex_decode(hash@), size_bytes as int)
                },
                Err(e) => {
                    &&& !(hexstr::is_hex_text(hash@) && hash@.len() == 2 * HASH_LEN
                        && size_bytes <= i64::MAX)
                    &&& e matches Error::InvalidDigestParts(_)
                },
            },
    {
        let packed_hash = match hexstr::decode_hex_exact(hash, HASH_LEN) {
            Ok(v) => v,
            Err(_) => {
                return Err(
                    Error::InvalidDigestParts("unable to create `packed_hash`".to_owned()),
                );
            },
        };
        if size_bytes as u64 > i64::MAX as u64 {
            return Err(
                Error::InvalidDigestParts("could not convert `size_bytes` to i64".to_owned()),
            );
        }
        Ok(Self { size_bytes: size_bytes as i64, packed_hash })
    }

    /// Parses a wire digest, failing on malformed hexadecimal or a negative
    /// declared size.
    pub fn try_from_wire(digest: Digest) -> (r: Result<Self, Error>)
        ensures
            match r {
                Ok(d) => {
                    &&& hexstr::is_hex_text(digest.hash@)
                    &&& digest.hash@.len() == 2 * HASH_LEN
                    &&& digest.size_bytes >= 0
                    &&& d.wf()
                    &&& d@ == (hexstr::hex_decode(digest.hash@), digest.size_bytes as int)
                },
                Err(e) => {
                    if hexstr::is_hex_text(digest.hash@) && digest.hash@.len() == 2 * HASH_LEN {
                        digest.size_bytes < 0 && e matches Error::InvalidDigestParts(_)
                    } else {
                        e matches Error::InvalidHexString(_)
                    }
                },
            },
    {
        let packed_hash = match hexstr::decode_hex_exact(digest.hash.as_str(), HASH_LEN) {
            Ok(v) => v,
            Err(h) => {
                return Err(Error::InvalidHexString(h));
            },
        };
        if digest.size_bytes < 0 {
            return Err(
                Error::InvalidDigestParts("`size_bytes` must be non-negative".to_owned()),
            );
        }
        Ok(Self { size_bytes: digest.size_bytes, packed_hash })
    }

    /// The wire form of this digest: its hash as lowercase hexadecimal text
    /// beside the size. Total, no failure.
    pub fn to_wire(&self) -> (r: Digest)
        ensures
            r.hash@ == hexstr::hex_encode(self.packed_hash@),
            r.size_bytes == self.size_bytes,
    {
        Digest { hash: hexstr::encode_hex(&self.packed_hash), size_bytes: self.size_bytes }
    }

    /// The hexadecimal text of the packed hash.
    pub fn hash(&self) -> (r: DigestHash)
        ensures
            r@ == hexstr::hex_encode(self.packed_hash@),
    {
        DigestHash(hexstr::encode_hex(&self.packed_hash))
    }

    /// Whether two digests name the same content: both hash and size match.
    pub fn same(&self, other: &Self) -> (r: bool)
        ensures
            r == (self@ == other@),
    {
        if self.size_bytes != other.size_bytes {
            return false;
        }
        if self.packed_hash.len() != other.packed_hash.len() {
            return false;
        }
        let mut i: usize = 0;
        while i < self.packed_hash.len()
            invariant
                i <= self.packed_hash@.len(),
                self.packed_hash@.len() == other.packed_hash@.len(),
                self.size_bytes == other.size_bytes,
                forall|j: int| 0 <= j < i ==> self.packed_hash@[j] == other.packed_hash@[j],
            decreases self.packed_hash@.len() - i,
        {
            if self.packed_hash[i] != other.packed_hash[i] {
                return false;
            }
            i = i + 1;
        }
        proof {
            assert(self.packed_hash@ =~= other.packed_hash@);
        }
        true
    }
}

impl Clone for DigestInfo {
    fn clone(&self) -> (r: Self)
        ensures
            r@ == self@,
            r.wf() == self.wf(),
    {
        Self { size_bytes: self.size_bytes, packed_hash: clone_bytes(&self.packed_hash) }
    }
}

/// Whether two byte vectors hold the same bytes.
pub fn bytes_eq(a: &Vec<u8>, b: &Vec<u8>) -> (r: bool)
    ensures
        r == (a@ == b@),
{
    if a.len() != b.len() {
        return false;
    }
    let mut i: usize = 0;
    while i < a.len()
        invariant
            i <= a@.len(),
            a@.len() == b@.len(),
            forall|j: int| 0 <= j < i ==> a@[j] == b@[j],
        decreases a@.len() - i,
    {
        if a[i] != b[i] {
            return false;
        }
        i = i + 1;
    }
    proof {
        assert(a@ =~= b@);
    }
    true
}

/// A byte-for-byte copy of a byte vector.
pub fn clone_bytes(v: &Vec<u8>) -> (r: Vec<u8>)
    ensures
        r@ == v@,
{
    let mut out: Vec<u8> = Vec::new();
    let mut i: usize = 0;
    while i < v.len()
        invariant
            i <= v@.len(),
            out@ =~= v@.subrange(0, i as int),
        decreases v@.len() - i,
    {
        out.push(v[i]);
        i = i + 1;
        assert(out@ =~= v@.subrange(0, i as int));
    }
    assert(out@ =~= v@);
    out
}

/// Round-trip identity: a digest built from valid lowercase hash text and a
/// representable size reproduces that text and size on the wire.
pub proof fn lemma_digest_round_trip(hash: Seq<char>, size_bytes: usize, d: DigestInfo, w: Digest)
    requires
        hash.len() == 2 * HASH_LEN,
        forall|i: int| 0 <= i < hash.len() ==> hexstr::is_lower_hex_digit(#[trigger] hash[i]),
        size_bytes <= i64::MAX,
        d@ == (hexstr::hex_decode(hash), size_bytes as int),
        w.hash@ == hexstr::hex_encode(d.packed_hash@),
        w.size_bytes == d.size_bytes,
    ensures
        w.hash@ == hash,
        w.size_bytes == size_bytes,
        forall|i: int| 0 <= i < w.hash@.len() ==> hexstr::is_lower_hex_digit(#[trigger] w.hash@[i]),
{
    hexstr::lemma_hex_encode_decode(hash);
    hexstr::lemma_hex_encode_is_lower(d.packed_hash@);
}

} // verus!
