//! The wire addressing grammars. A resource name is a `/`-separated string
//! in one of exactly two shapes:
//!
//! * `{instance_name}/blobs/{hash}/{size}` — a read/reference address;
//! * `{instance_name}/uploads/{uuid}/blobs/{hash}/{size}` — an upload
//!   address, whose `{uuid}` must be a well-formed UUID.
//!
//! The instance name may be empty; the size must be a decimal number that
//! fits the machine word; the hash is checked only downstream, by digest
//! construction.
use vstd::prelude::*;

use crate::errors::Error;
use crate::hexstr::string_push;
use crate::instance_name::InstanceName;

verus! {

/// The segments of `s` split on `'/'`: one more segment than separators,
/// empty segments included.
pub open spec fn split_slashes(s: Seq<char>) -> Seq<Seq<char>>
    decreases s.len(),
{
    if s.len() == 0 {
        seq![Seq::<char>::empty()]
    } else if s[0] == '/' {
        seq![Seq::<char>::empty()] + split_slashes(s.subrange(1, s.len() as int))
    } else {
        let rest = split_slashes(s.subrange(1, s.len() as int));
        seq![seq![s[0]] + rest[0]] + rest.subrange(1, rest.len() as int)
    }
}

pub proof fn lemma_split_len_pos(s: Seq<char>)
    ensures
        split_slashes(s).len() >= 1,
    decreases s.len(),
{
    if s.len() > 0 {
        lemma_split_len_pos(s.subrange(1, s.len() as int));
    }
}

/// A string without separators is one whole segment.
pub proof fn lemma_split_no_slash(s: Seq<char>)
    requires
        forall|i: int| 0 <= i < s.len() ==> s[i] != '/',
    ensures
        split_slashes(s) == seq![s],
    decreases s.len(),
{
    if s.len() == 0 {
        assert(s =~= Seq::<char>::empty());
        assert(split_slashes(s) =~= seq![s]);
    } else {
        let tail = s.subrange(1, s.len() as int);
        lemma_split_no_slash(tail);
        lemma_split_len_pos(tail);
        let rest = split_slashes(tail);
        assert(rest[0] == tail);
        assert(seq![s[0]] + rest[0] =~= s);
        assert(rest.subrange(1, rest.len() as int) =~= Seq::<Seq<char>>::empty());
        assert(split_slashes(s) =~= seq![s]);
    }
}

/// Splitting peels the first segment off at the first separator.
pub proof fn lemma_split_peel(s: Seq<char>, p: int)
    requires
        0 <= p < s.len(),
        s[p] == '/',
        forall|i: int| 0 <= i < p ==> s[i] != '/',
    ensures
        split_slashes(s) == seq![s.subrange(0, p)] + split_slashes(
            s.subrange(p + 1, s.len() as int),
        ),
    decreases p,
{
    let tail = s.subrange(1, s.len() as int);
    if p == 0 {
        assert(s.subrange(0, 0) =~= Seq::<char>::empty());
        assert(split_slashes(s) =~= seq![s.subrange(0, p)] + split_slashes(
            s.subrange(p + 1, s.len() as int),
        ));
    } else {
        lemma_split_peel(tail, p - 1);
        lemma_split_len_pos(tail);
        let rest = split_slashes(tail);
        assert(rest == seq![tail.subrange(0, p - 1)] + split_slashes(
            tail.subrange(p, tail.len() as int),
        ));
        assert(rest[0] == tail.subrange(0, p - 1));
        assert(seq![s[0]] + rest[0] =~= s.subrange(0, p));
        assert(tail.subrange(p, tail.len() as int) =~= s.subrange(p + 1, s.len() as int));
        assert(rest.subrange(1, rest.len() as int) =~= split_slashes(
            s.subrange(p + 1, s.len() as int),
        ));
        assert(split_slashes(s) =~= seq![s.subrange(0, p)] + split_slashes(
            s.subrange(p + 1, s.len() as int),
        ));
    }
}

/// The numeric value of a decimal digit, or `None` for any other character.
pub open spec fn dec_char_value(c: char) -> Option<u8> {
    match c {
        '0' => Some(0u8),
        '1' => Some(1u8),
        '2' => Some(2u8),
        '3' => Some(3u8),
        '4' => Some(4u8),
        '5' => Some(5u8),
        '6' => Some(6u8),
        '7' => Some(7u8),
        '8' => Some(8u8),
        '9' => Some(9u8),
        _ => None,
    }
}

/// A non-empty run of decimal digits.
pub open spec fn is_dec_digits(s: Seq<char>) -> bool {
    s.len() > 0 && forall|i: int| 0 <= i < s.len() ==> dec_char_value(#[trigger] s[i]) is Some
}

/// The number a run of decimal digits denotes.
pub open spec fn dec_val(s: Seq<char>) -> int
    decreases s.len(),
{
    if s.len() == 0 {
        0
    } else {
        dec_val(s.drop_last()) * 10 + dec_char_value(s.last())->0
    }
}

/// A digit run denotes a non-negative number.
proof fn lemma_dec_val_nonneg(s: Seq<char>)
    requires
        forall|i: int| 0 <= i < s.len() ==> dec_char_value(#[trigger] s[i]) is Some,
    ensures
        dec_val(s) >= 0,
    decreases s.len(),
{
    if s.len() > 0 {
        assert forall|i: int| 0 <= i < s.drop_last().len() implies dec_char_value(
            #[trigger] s.drop_last()[i],
        ) is Some by {
            assert(s.drop_last()[i] == s[i]);
        }
        lemma_dec_val_nonneg(s.drop_last());
    }
}

/// A longer digit run never denotes a smaller number than its prefix.
proof fn lemma_dec_val_prefix_le(s: Seq<char>, k: int)
    requires
        forall|i: int| 0 <= i < s.len() ==> dec_char_value(#[trigger] s[i]) is Some,
        0 <= k <= s.len(),
    ensures
        dec_val(s.subrange(0, k)) <= dec_val(s),
    decreases s.len() - k,
{
    if k == s.len() {
        assert(s.subrange(0, k) =~= s);
    } else {
        lemma_dec_val_prefix_le(s, k + 1);
        let a = s.subrange(0, k);
        let b = s.subrange(0, k + 1);
        assert(b.drop_last() =~= a);
        assert(dec_val(b) == dec_val(a) * 10 + dec_char_value(b.last())->0);
        assert forall|i: int| 0 <= i < a.len() implies dec_char_value(#[trigger] a[i]) is Some by {
            assert(a[i] == s[i]);
        }
        lemma_dec_val_nonneg(a);
    }
}

/// 10 to the `k`-th power.
pub open spec fn pow10(k: nat) -> int
    decreases k,
{
    if k == 0 {
        1
    } else {
        10 * pow10((k - 1) as nat)
    }
}

pub proof fn lemma_pow10_pos(k: nat)
    ensures
        pow10(k) >= 1,
    decreases k,
{
    if k > 0 {
        lemma_pow10_pos((k - 1) as nat);
    }
}

/// Prepending a digit adds its value scaled by the run's width.
proof fn lemma_dec_val_prepend(d: char, s: Seq<char>)
    ensures
        dec_val(seq![d] + s) == dec_char_value(d)->0 * pow10(s.len()) + dec_val(s),
    decreases s.len(),
{
    let dv = dec_char_value(d)->0;
    if s.len() == 0 {
        assert(seq![d] + s =~= seq![d]);
        assert((seq![d]).drop_last() =~= Seq::<char>::empty());
        assert(dec_val(Seq::<char>::empty()) == 0);
    } else {
        lemma_dec_val_prepend(d, s.drop_last());
        assert((seq![d] + s).drop_last() =~= seq![d] + s.drop_last());
        assert((seq![d] + s).last() == s.last());
        let p = pow10((s.len() - 1) as nat);
        assert(pow10(s.len()) == 10 * p);
        assert(dec_val(seq![d] + s) == (dv * p + dec_val(s.drop_last())) * 10 + dec_char_value(
            s.last(),
        )->0);
        assert((dv * p + dec_val(s.drop_last())) * 10 == dv * (10 * p) + dec_val(s.drop_last())
            * 10) by (nonlinear_arith);
    }
}

/// The executable digit for a value below ten.
fn dec_value_digit(v: u8) -> (r: char)
    requires
        v < 10,
    ensures
        dec_char_value(r) == Some(v),
{
    match v {
        0u8 => '0',
        1u8 => '1',
        2u8 => '2',
        3u8 => '3',
        4u8 => '4',
        5u8 => '5',
        6u8 => '6',
        7u8 => '7',
        8u8 => '8',
        _ => '9',
    }
}

/// The decimal text of a number; it parses back to the same number.
pub fn usize_to_dec(n: usize) -> (r: String)
    ensures
        is_dec_digits(r@),
        dec_val(r@) == n,
{
    let mut digits: Vec<char> = Vec::new();
    let mut m: usize = n;
    let ghost mut width: nat = 0nat;
    proof {
        assert(Seq::<char>::empty().reverse() =~= Seq::<char>::empty());
    }
    proof {
        assert(dec_val(Seq::<char>::empty()) == 0);
    }
    loop
        invariant
            digits@.len() == width,
            forall|i: int|
                0 <= i < digits@.len() ==> dec_char_value(#[trigger] digits@[i]) is Some,
            n == m * pow10(width) + dec_val(digits@.reverse()),
            dec_val(digits@.reverse()) >= 0,
        ensures
            m == 0,
            digits@.len() > 0,
        decreases m + (if digits@.len() == 0 { 1int } else { 0int }),
    {
        let d = dec_value_digit((m % 10) as u8);
        let ghost old_digits = digits@;
        let ghost m0 = m as int;
        digits.push(d);
        proof {
            assert(digits@.reverse() =~= seq![d] + old_digits.reverse());
            lemma_dec_val_prepend(d, old_digits.reverse());
            let p = pow10(width);
            let q = m0 / 10;
            let rr = m0 % 10;
            assert(m0 == q * 10 + rr);
            assert(m0 * p == q * (10 * p) + rr * p) by (nonlinear_arith)
                requires
                    m0 == q * 10 + rr,
            ;
            lemma_pow10_pos(width);
            let dv0 = dec_char_value(d)->0 as int;
            assert(dv0 * p >= 0) by (nonlinear_arith)
                requires
                    dv0 >= 0,
                    p >= 1,
            ;
            width = width + 1;
            assert(pow10(width) == 10 * p);
        }
        m = m / 10;
        if m == 0 {
            break ;
        }
    }
    let mut out = String::new();
    let mut k: usize = digits.len();
    proof {
        assert(digits@.reverse().subrange(0, 0) =~= Seq::<char>::empty());
    }
    while k > 0
        invariant
            k <= digits@.len(),
            out@ =~= digits@.reverse().subrange(0, digits@.len() - k),
        decreases k,
    {
        k = k - 1;
        string_push(&mut out, digits[k]);
        proof {
            assert(digits@.reverse()[digits@.len() - k - 1] == digits@[k as int]);
            assert(out@ =~= digits@.reverse().subrange(0, digits@.len() - k));
        }
    }
    proof {
        assert(out@ =~= digits@.reverse());
        assert forall|i: int| 0 <= i < out@.len() implies dec_char_value(
            #[trigger] out@[i],
        ) is Some by {
            assert(out@[i] == digits@[digits@.len() - 1 - i]);
        }
    }
    out
}

/// A size segment: decimal digits denoting a number the machine can index
/// with.
pub open spec fn is_valid_size(s: Seq<char>) -> bool {
    is_dec_digits(s) && dec_val(s) <= usize::MAX
}

/// What a well-formed resource name denotes.
pub struct ResourceNameV {
    pub instance: Seq<char>,
    pub uuid: Option<Seq<char>>,
    pub hash: Seq<char>,
    pub size: int,
}

/// Whether the text is a well-formed UUID, as a name: it depends on the
/// characters alone.
pub uninterp spec fn uuid_ok(s: Seq<char>) -> bool;

/// Relies on uuid's `Uuid::try_parse`: recognizing a UUID is a pure
/// function of the input text.
#[verifier::external_body]
fn is_valid_uuid(s: &str) -> (r: bool)
    ensures
        r == uuid_ok(s@),
{
    uuid::Uuid::try_parse(s).is_ok()
}

/// The parse function of the two grammars: four segments around the
/// literal `blobs`, or six with `uploads`, a well-formed UUID, and `blobs`
/// in third place. Anything else denotes nothing.
pub open spec fn parse_resource_spec(s: Seq<char>) -> Option<ResourceNameV> {
    let parts = split_slashes(s);
    if parts.len() == 4 && parts[1] == "blobs"@ && is_valid_size(parts[3]) {
        Some(
            ResourceNameV {
                instance: parts[0],
                uuid: None,
                hash: parts[2],
                size: dec_val(parts[3]),
            },
        )
    } else if parts.len() == 6 && parts[1] == "uploads"@ && uuid_ok(parts[2]) && parts[3]
        == "blobs"@ && is_valid_size(parts[5]) {
        Some(
            ResourceNameV {
                instance: parts[0],
                uuid: Some(parts[2]),
                hash: parts[4],
                size: dec_val(parts[5]),
            },
        )
    } else {
        None
    }
}

/// A parsed resource name: the tenant, the upload session for write
/// addresses, the hash text, and the declared size.
pub struct ResourceName {
    pub instance_name: InstanceName,
    pub uuid: Option<String>,
    pub hash: String,
    pub size: usize,
}

impl View for ResourceName {
    type V = ResourceNameV;

    open spec fn view(&self) -> ResourceNameV {
        ResourceNameV {
            instance: self.instance_name@,
            uuid: match self.uuid {
                Some(u) => Some(u@),
                None => None,
            },
            hash: self.hash@,
            size: self.size as int,
        }
    }
}

spec fn seg_views(s: Seq<String>) -> Seq<Seq<char>> {
    s.map_values(|x: String| x@)
}

proof fn lemma_seg_views(s: Seq<String>)
    ensures
        seg_views(s).len() == s.len(),
        forall|i: int| 0 <= i < s.len() ==> (#[trigger] seg_views(s)[i]) == s[i]@,
{
}

/// The executable form of `dec_char_value`.
fn dec_digit_value(c: char) -> (r: Option<u8>)
    ensures
        r == dec_char_value(c),
{
    match c {
        '0' => Some(0u8),
        '1' => Some(1u8),
        '2' => Some(2u8),
        '3' => Some(3u8),
        '4' => Some(4u8),
        '5' => Some(5u8),
        '6' => Some(6u8),
        '7' => Some(7u8),
        '8' => Some(8u8),
        '9' => Some(9u8),
        _ => None,
    }
}

/// Parses a size segment; `None` when it is not a digit run or does not
/// fit the machine word.
pub fn parse_size(seg: &String) -> (r: Option<usize>)
    ensures
        match r {
            Some(v) => is_valid_size(seg@) && v == dec_val(seg@),
            None => !is_valid_size(seg@),
        },
{
    let s = seg.as_str();
    let n = s.unicode_len();
    if n == 0 {
        return None;
    }
    let mut acc: usize = 0;
    let mut i: usize = 0;
    while i < n
        invariant
            s@ == seg@,
            0 < n == s@.len(),
            i <= n,
            forall|j: int| 0 <= j < i ==> dec_char_value(#[trigger] s@[j]) is Some,
            acc == dec_val(s@.subrange(0, i as int)),
        decreases n - i,
    {
        let d = match dec_digit_value(s.get_char(i)) {
            Some(d) => d,
            None => {
                proof {
                    assert(dec_char_value(s@[i as int]) is None);
                    assert(!is_dec_digits(s@));
                    assert(!is_valid_size(seg@));
                }
                return None;
            },
        };
        proof {
            assert(s@.subrange(0, i + 1).drop_last() =~= s@.subrange(0, i as int));
            assert(s@.subrange(0, i + 1).last() == s@[i as int]);
        }
        if acc > (usize::MAX - d as usize) / 10 {
            proof {
                assert(dec_val(s@.subrange(0, i + 1)) == acc * 10 + d);
                let m = usize::MAX as int;
                assert(m - d == 10 * ((m - d) / 10) + (m - d) % 10);
                assert(0 <= (m - d) % 10 < 10);
                assert(acc * 10 + d > m);
                if is_dec_digits(s@) {
                    lemma_dec_val_prefix_le(s@, i + 1);
                    assert(dec_val(s@) >= dec_val(s@.subrange(0, i + 1)));
                    assert(!is_valid_size(seg@));
                }
            }
            return None;
        }
        acc = acc * 10 + d as usize;
        i = i + 1;
    }
    proof {
        assert(s@.subrange(0, n as int) =~= s@);
    }
    Some(acc)
}

impl ResourceName {
    /// Parses a wire resource name; any string that fits neither grammar
    /// fails with `InvalidResourceName` carrying the original string.
    pub fn parse(value: &str) -> (r: Result<ResourceName, Error>)
        ensures
            match r {
                Ok(rn) => parse_resource_spec(value@) == Some(rn@),
                Err(e) => {
                    &&& parse_resource_spec(value@) is None
                    &&& e matches Error::InvalidResourceName(s) && s@ == value@
                },
            },
    {
        let n = value.unicode_len();
        let mut segments: Vec<String> = Vec::new();
        let mut start: usize = 0;
        let mut i: usize = 0;
        proof {
            lemma_seg_views(segments@);
            assert(seg_views(segments@) =~= Seq::<Seq<char>>::empty());
            assert(value@.subrange(0, n as int) =~= value@);
        }
        while i < n
            invariant
                start <= i <= n,
                n == value@.len(),
                forall|j: int| start <= j < i ==> value@[j] != '/',
                seg_views(segments@) + split_slashes(value@.subrange(start as int, n as int))
                    == split_slashes(value@),
            decreases n - i,
        {
            if value.get_char(i) == '/' {
                let seg = value.substring_char(start, i).to_owned();
                let ghost old_views = seg_views(segments@);
                segments.push(seg);
                proof {
                    lemma_seg_views(segments@);
                    assert(seg_views(segments@) =~= old_views.push(
                        value@.subrange(start as int, i as int),
                    ));
                    let s1 = value@.subrange(start as int, n as int);
                    let p = i - start;
                    assert(s1[p] == value@[i as int]);
                    assert forall|j: int| 0 <= j < p implies s1[j] != '/' by {
                        assert(s1[j] == value@[start + j]);
                    }
                    lemma_split_peel(s1, p);
                    assert(s1.subrange(0, p) =~= value@.subrange(start as int, i as int));
                    assert(s1.subrange(p + 1, s1.len() as int) =~= value@.subrange(
                        i + 1,
                        n as int,
                    ));
                    assert(seg_views(segments@) + split_slashes(
                        value@.subrange(i + 1, n as int),
                    ) =~= split_slashes(value@));
                }
                start = i + 1;
            }
            i = i + 1;
        }
        let seg = value.substring_char(start, n).to_owned();
        let ghost old_views = seg_views(segments@);
        segments.push(seg);
        proof {
            lemma_seg_views(segments@);
            assert(seg_views(segments@) =~= old_views.push(
                value@.subrange(start as int, n as int),
            ));
            lemma_split_no_slash(value@.subrange(start as int, n as int));
            assert(seg_views(segments@) =~= split_slashes(value@));
            lemma_seg_views(segments@);
        }
        let ghost parts = split_slashes(value@);
        if segments.len() == 4 {
            if !segments[1].eq(&"blobs".to_owned()) {
                return Err(Error::InvalidResourceName(value.to_owned()));
            }
            let size = match parse_size(&segments[3]) {
                Some(v) => v,
                None => {
                    return Err(Error::InvalidResourceName(value.to_owned()));
                },
            };
            let rn = ResourceName {
                instance_name: InstanceName::new(segments[0].clone()),
                uuid: None,
                hash: segments[2].clone(),
                size,
            };
            Ok(rn)
        } else if segments.len() == 6 {
            if !segments[1].eq(&"uploads".to_owned()) {
                return Err(Error::InvalidResourceName(value.to_owned()));
            }
            if !is_valid_uuid(segments[2].as_str()) {
                return Err(Error::InvalidResourceName(value.to_owned()));
            }
            if !segments[3].eq(&"blobs".to_owned()) {
                return Err(Error::InvalidResourceName(value.to_owned()));
            }
            let size = match parse_size(&segments[5]) {
                Some(v) => v,
                None => {
                    return Err(Error::InvalidResourceName(value.to_owned()));
                },
            };
            let rn = ResourceName {
                instance_name: InstanceName::new(segments[0].clone()),
                uuid: Some(segments[2].clone()),
                hash: segments[4].clone(),
                size,
            };
            Ok(rn)
        } else {
            Err(Error::InvalidResourceName(value.to_owned()))
        }
    }
}

} // verus!
