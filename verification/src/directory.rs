//! The serialized form of a directory node: a flat list of child
//! directory references, each a fixed 40-byte record — the child's 32-byte
//! hash followed by its size as 8 big-endian bytes. A payload is a
//! directory exactly when its length is a multiple of 40 and every
//! recorded size fits a signed 64-bit integer.
use vstd::prelude::*;

use crate::digest::{DigestInfo, HASH_LEN};
use crate::errors::Error;

verus! {

/// The record width: a packed hash and an 8-byte size.
pub const DIR_RECORD_LEN: usize = 40;

/// The big-endian value of a byte run: earlier bytes are more
/// significant.
pub open spec fn be_val(s: Seq<u8>) -> int
    decreases s.len(),
{
    if s.len() == 0 {
        0
    } else {
        be_val(s.drop_last()) * 256 + s.last()
    }
}

/// 256 to the `k`-th power.
pub open spec fn pow256(k: nat) -> int
    decreases k,
{
    if k == 0 {
        1
    } else {
        256 * pow256((k - 1) as nat)
    }
}

pub proof fn lemma_pow256_pos(k: nat)
    ensures
        pow256(k) >= 1,
    decreases k,
{
    if k > 0 {
        lemma_pow256_pos((k - 1) as nat);
    }
}

pub proof fn lemma_pow256_le(a: nat, b: nat)
    requires
        a <= b,
    ensures
        pow256(a) <= pow256(b),
    decreases b,
{
    if a < b {
        lemma_pow256_le(a, (b - 1) as nat);
        lemma_pow256_pos((b - 1) as nat);
        assert(pow256(b) == 256 * pow256((b - 1) as nat));
    }
}

/// Whether a payload is a well-formed directory serialization.
pub open spec fn is_dir_payload(b: Seq<u8>) -> bool {
    &&& b.len() % 40 == 0
    &&& forall|i: int|
        0 <= i < b.len() / 40 ==> be_val(#[trigger] b.subrange(40 * i + 32, 40 * i + 40))
            <= i64::MAX
}

/// The child references a directory payload holds, in record order.
pub open spec fn dir_children(b: Seq<u8>) -> Seq<(Seq<u8>, int)> {
    Seq::new(
        (b.len() / 40) as nat,
        |i: int| (b.subrange(40 * i, 40 * i + 32), be_val(b.subrange(40 * i + 32, 40 * i + 40))),
    )
}

/// Reads the big-endian size field of one record.
fn read_be64(b: &Vec<u8>, off: usize) -> (r: u64)
    requires
        off + 8 <= b@.len(),
    ensures
        r == be_val(b@.subrange(off as int, off + 8)),
{
    let blen = b.len();
    proof {
        assert(b@.subrange(off as int, off as int) =~= Seq::<u8>::empty());
    }
    let mut v: u64 = 0;
    let mut j: usize = 0;
    while j < 8
        invariant
            j <= 8,
            off + 8 <= b@.len(),
            b@.len() == blen,
            v == be_val(b@.subrange(off as int, off + j)),
            0 <= v < pow256(j as nat),
        decreases 8 - j,
    {
        proof {
            let pre = b@.subrange(off as int, off + j);
            let cur = b@.subrange(off as int, off + j + 1);
            assert(cur.drop_last() =~= pre);
            assert(cur.last() == b@[off + j]);
            assert(pow256((j + 1) as nat) == 256 * pow256(j as nat));
            assert(pow256(7) == 72057594037927936) by {
                assert(pow256(0) == 1);
                assert(pow256(1) == 256);
                assert(pow256(2) == 65536);
                assert(pow256(3) == 16777216);
                assert(pow256(4) == 4294967296);
                assert(pow256(5) == 1099511627776);
                assert(pow256(6) == 281474976710656);
            }
            lemma_pow256_le(j as nat, 7);
        }
        v = v * 256 + b[off + j] as u64;
        j = j + 1;
    }
    v
}

/// The 8 big-endian bytes of a 64-bit value.
pub open spec fn be64(n: u64) -> Seq<u8> {
    seq![
        ((n / 256 / 256 / 256 / 256 / 256 / 256 / 256) % 256) as u8,
        ((n / 256 / 256 / 256 / 256 / 256 / 256) % 256) as u8,
        ((n / 256 / 256 / 256 / 256 / 256) % 256) as u8,
        ((n / 256 / 256 / 256 / 256) % 256) as u8,
        ((n / 256 / 256 / 256) % 256) as u8,
        ((n / 256 / 256) % 256) as u8,
        ((n / 256) % 256) as u8,
        (n % 256) as u8,
    ]
}

/// The big-endian bytes of a value denote that value.
pub proof fn lemma_be64_val(n: u64)
    ensures
        be64(n).len() == 8,
        be_val(be64(n)) == n,
{
    let q1 = n / 256;
    let q2 = q1 / 256;
    let q3 = q2 / 256;
    let q4 = q3 / 256;
    let q5 = q4 / 256;
    let q6 = q5 / 256;
    let q7 = q6 / 256;
    let s = be64(n);
    assert(be_val(s) == ((((((((q7 % 256) * 256 + q6 % 256) * 256 + q5 % 256) * 256 + q4 % 256)
        * 256 + q3 % 256) * 256 + q2 % 256) * 256 + q1 % 256) * 256 + n % 256)) by {
        let b0 = (q7 % 256) as u8;
        let b1 = (q6 % 256) as u8;
        let b2 = (q5 % 256) as u8;
        let b3 = (q4 % 256) as u8;
        let b4 = (q3 % 256) as u8;
        let b5 = (q2 % 256) as u8;
        let b6 = (q1 % 256) as u8;
        let b7 = (n % 256) as u8;
        assert(s =~= seq![b0, b1, b2, b3, b4, b5, b6, b7]);
        assert(s.drop_last() =~= seq![b0, b1, b2, b3, b4, b5, b6]);
        assert(seq![b0, b1, b2, b3, b4, b5, b6].drop_last() =~= seq![b0, b1, b2, b3, b4, b5]);
        assert(seq![b0, b1, b2, b3, b4, b5].drop_last() =~= seq![b0, b1, b2, b3, b4]);
        assert(seq![b0, b1, b2, b3, b4].drop_last() =~= seq![b0, b1, b2, b3]);
        assert(seq![b0, b1, b2, b3].drop_last() =~= seq![b0, b1, b2]);
        assert(seq![b0, b1, b2].drop_last() =~= seq![b0, b1]);
        assert(seq![b0, b1].drop_last() =~= seq![b0]);
        assert(seq![b0].drop_last() =~= Seq::<u8>::empty());
        assert(be_val(Seq::<u8>::empty()) == 0);
        assert(be_val(seq![b0]) == b0);
        assert(be_val(seq![b0, b1]) == b0 * 256 + b1);
        assert(be_val(seq![b0, b1, b2]) == be_val(seq![b0, b1]) * 256 + b2);
        assert(be_val(seq![b0, b1, b2, b3]) == be_val(seq![b0, b1, b2]) * 256 + b3);
        assert(be_val(seq![b0, b1, b2, b3, b4]) == be_val(seq![b0, b1, b2, b3]) * 256 + b4);
        assert(be_val(seq![b0, b1, b2, b3, b4, b5]) == be_val(seq![b0, b1, b2, b3, b4]) * 256
            + b5);
        assert(be_val(seq![b0, b1, b2, b3, b4, b5, b6]) == be_val(seq![b0, b1, b2, b3, b4, b5])
            * 256 + b6);
        assert(be_val(s) == be_val(seq![b0, b1, b2, b3, b4, b5, b6]) * 256 + b7);
    }
    assert(q7 % 256 == q7);
    assert(q7 * 256 + q6 % 256 == q6);
    assert(q6 * 256 + q5 % 256 == q5);
    assert(q5 * 256 + q4 % 256 == q4);
    assert(q4 * 256 + q3 % 256 == q3);
    assert(q3 * 256 + q2 % 256 == q2);
    assert(q2 * 256 + q1 % 256 == q1);
    assert(q1 * 256 + n % 256 == n);
}

/// Appends a size as 8 big-endian bytes.
fn push_be64(out: &mut Vec<u8>, n: u64)
    ensures
        final(out)@ == old(out)@ + be64(n),
{
    let q1 = n / 256;
    let q2 = q1 / 256;
    let q3 = q2 / 256;
    let q4 = q3 / 256;
    let q5 = q4 / 256;
    let q6 = q5 / 256;
    let q7 = q6 / 256;
    let b7 = (n % 256) as u8;
    let b6 = (q1 % 256) as u8;
    let b5 = (q2 % 256) as u8;
    let b4 = (q3 % 256) as u8;
    let b3 = (q4 % 256) as u8;
    let b2 = (q5 % 256) as u8;
    let b1 = (q6 % 256) as u8;
    let b0 = (q7 % 256) as u8;
    out.push(b0);
    out.push(b1);
    out.push(b2);
    out.push(b3);
    out.push(b4);
    out.push(b5);
    out.push(b6);
    out.push(b7);
    proof {
        assert(out@ =~= old(out)@ + be64(n));
    }
}

/// Serializes child references into a directory payload: one 40-byte
/// record per child, in order.
pub fn encode_directory(children: &Vec<DigestInfo>) -> (r: Vec<u8>)
    requires
        forall|i: int| 0 <= i < children@.len() ==> (#[trigger] children@[i]).wf(),
        children@.len() <= usize::MAX / 40,
    ensures
        is_dir_payload(r@),
        dir_children(r@).len() == children@.len(),
        forall|i: int|
            0 <= i < children@.len() ==> #[trigger] dir_children(r@)[i] == children@[i]@,
{
    let mut out: Vec<u8> = Vec::new();
    let mut i: usize = 0;
    while i < children.len()
        invariant
            i <= children@.len(),
            children@.len() <= usize::MAX / 40,
            forall|j: int| 0 <= j < children@.len() ==> (#[trigger] children@[j]).wf(),
            out@.len() == 40 * i,
            forall|j: int|
                0 <= j < i ==> {
                    &&& #[trigger] out@.subrange(40 * j, 40 * j + 32) == children@[j]@.0
                    &&& be_val(out@.subrange(40 * j + 32, 40 * j + 40)) == children@[j]@.1
                },
        decreases children@.len() - i,
    {
        let ghost pre = out@;
        let child = &children[i];
        let mut k: usize = 0;
        while k < child.packed_hash.len()
            invariant
                k <= child.packed_hash@.len(),
                out@ =~= pre + child.packed_hash@.subrange(0, k as int),
            decreases child.packed_hash@.len() - k,
        {
            out.push(child.packed_hash[k]);
            k = k + 1;
            assert(out@ =~= pre + child.packed_hash@.subrange(0, k as int));
        }
        proof {
            assert(out@ =~= pre + child.packed_hash@);
        }
        push_be64(&mut out, child.size_bytes as u64);
        i = i + 1;
        proof {
            lemma_be64_val(child.size_bytes as u64);
            assert(out@ == pre + child.packed_hash@ + be64(child.size_bytes as u64));
            assert forall|j: int| 0 <= j < i implies {
                &&& #[trigger] out@.subrange(40 * j, 40 * j + 32) == children@[j]@.0
                &&& be_val(out@.subrange(40 * j + 32, 40 * j + 40)) == children@[j]@.1
            } by {
                if j < i - 1 {
                    assert(out@.subrange(40 * j, 40 * j + 32) =~= pre.subrange(
                        40 * j,
                        40 * j + 32,
                    ));
                    assert(out@.subrange(40 * j + 32, 40 * j + 40) =~= pre.subrange(
                        40 * j + 32,
                        40 * j + 40,
                    ));
                } else {
                    assert(out@.subrange(40 * j, 40 * j + 32) =~= child.packed_hash@);
                    assert(out@.subrange(40 * j + 32, 40 * j + 40) =~= be64(
                        child.size_bytes as u64,
                    ));
                }
            }
        }
    }
    proof {
        assert forall|j: int| 0 <= j < out@.len() / 40 implies be_val(
            #[trigger] out@.subrange(40 * j + 32, 40 * j + 40),
        ) <= i64::MAX by {
            assert(out@.subrange(40 * j, 40 * j + 32) == children@[j]@.0);
            assert(children@[j].wf());
        }
        assert forall|j: int| 0 <= j < children@.len() implies #[trigger] dir_children(out@)[j]
            == children@[j]@ by {
            assert(out@.subrange(40 * j, 40 * j + 32) == children@[j]@.0);
        }
    }
    out
}

/// Parses a directory payload back into child digests; fails when the
/// length is not a multiple of the record width.
pub fn decode_directory(payload: &Vec<u8>) -> (r: Result<Vec<DigestInfo>, Error>)
    ensures
        match r {
            Ok(children) => {
                &&& is_dir_payload(payload@)
                &&& children@.len() == dir_children(payload@).len()
                &&& forall|i: int|
                    0 <= i < children@.len() ==> (#[trigger] children@[i])@ == dir_children(
                        payload@,
                    )[i] && children@[i].wf()
            },
            Err(Error::NotADirectory(_)) => !is_dir_payload(payload@),
            Err(_) => false,
        },
{
    if payload.len() % DIR_RECORD_LEN != 0 {
        return Err(Error::NotADirectory(DigestInfo::new(vec_zero_hash(), 0).hash()));
    }
    let count = payload.len() / DIR_RECORD_LEN;
    let mut children: Vec<DigestInfo> = Vec::new();
    let mut i: usize = 0;
    while i < count
        invariant
            i <= count,
            count == payload@.len() / 40,
            payload@.len() % 40 == 0,
            payload@.len() <= usize::MAX,
            children@.len() == i,
            forall|j: int|
                0 <= j < i ==> {
                    &&& (#[trigger] children@[j])@ == (
                        payload@.subrange(40 * j, 40 * j + 32),
                        be_val(payload@.subrange(40 * j + 32, 40 * j + 40)),
                    )
                    &&& children@[j].wf()
                },
        decreases count - i,
    {
        let base = DIR_RECORD_LEN * i;
        let mut hash: Vec<u8> = Vec::new();
        let mut k: usize = 0;
        while k < 32
            invariant
                k <= 32,
                base == 40 * i,
                i < count,
                count == payload@.len() / 40,
                payload@.len() % 40 == 0,
                payload@.len() <= usize::MAX,
                hash@ =~= payload@.subrange(base as int, base + k),
            decreases 32 - k,
        {
            hash.push(payload[base + k]);
            k = k + 1;
            assert(hash@ =~= payload@.subrange(base as int, base + k));
        }
        let size = read_be64(payload, base + 32);
        if size > i64::MAX as u64 {
            proof {
                assert(be_val(payload@.subrange(40 * i + 32, 40 * i + 40)) > i64::MAX);
            }
            return Err(Error::NotADirectory(DigestInfo::new(hash, 0).hash()));
        }
        children.push(DigestInfo::new(hash, size as i64));
        i = i + 1;
    }
    proof {
        assert forall|j: int| 0 <= j < payload@.len() / 40 implies be_val(
            #[trigger] payload@.subrange(40 * j + 32, 40 * j + 40),
        ) <= i64::MAX by {
            assert(children@[j]@.1 <= i64::MAX);
        }
        assert forall|j: int| 0 <= j < children@.len() implies (#[trigger] children@[j])@
            == dir_children(payload@)[j] by {}
    }
    Ok(children)
}

/// An all-zero hash, for error reporting when no record hash is at hand.
fn vec_zero_hash() -> (r: Vec<u8>)
    ensures
        r@.len() == HASH_LEN,
{
    let mut v: Vec<u8> = Vec::new();
    let mut i: usize = 0;
    while i < HASH_LEN
        invariant
            i <= HASH_LEN,
            v@.len() == i,
        decreases HASH_LEN - i,
    {
        v.push(0);
        i = i + 1;
    }
    v
}

} // verus!
