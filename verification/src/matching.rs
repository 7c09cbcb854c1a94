//! Shared machinery of the matcher modules: byte-level path segmentation,
//! and the trusted parsing and rendering of captured identifiers.
//!
//! A request path is an optional leading separator followed by segments.  A
//! matcher compares whole segments against its static routes and lets a
//! dynamic capture take any other segment.

use uuid::Uuid;
use vstd::prelude::*;
use vstd::string::StringSliceAdditionalSpecFns;

verus! {

/// The path separator byte.
pub open spec fn sep() -> u8 {
    47
}

/// A path without its one optional leading separator.
pub open spec fn strip_lead(p: Seq<u8>) -> Seq<u8> {
    if p.len() > 0 && p[0] == sep() {
        p.drop_first()
    } else {
        p
    }
}

/// The first segment of a path and what follows its separator, if any.
pub open spec fn split_seg(p: Seq<u8>) -> (Seq<u8>, Option<Seq<u8>>)
    decreases p.len(),
{
    if p.len() == 0 {
        (Seq::empty(), None)
    } else if p[0] == sep() {
        (Seq::empty(), Some(p.drop_first()))
    } else {
        let r = split_seg(p.drop_first());
        (seq![p[0]] + r.0, r.1)
    }
}

/// Whether a path has been fully consumed: nothing follows, or only one
/// trailing separator did.
pub open spec fn at_end(r: Option<Seq<u8>>) -> bool {
    match r {
        None => true,
        Some(x) => x.len() == 0,
    }
}

/// A segment boundary: the first separator at or after a position.
pub fn seg_end(path: &[u8], i: usize) -> (j: usize)
    requires
        i <= path@.len(),
    ensures
        i <= j <= path@.len(),
        forall|k: int| i <= k < j ==> path@[k] != sep(),
        j < path@.len() ==> path@[j as int] == sep(),
    decreases path@.len() - i,
{
    let n = path.len();
    let mut j = i;
    while j < n
        invariant
            i <= j <= n,
            n == path@.len(),
            forall|k: int| i <= k < j ==> path@[k] != sep(),
        decreases n - j,
    {
        if path[j] == 47 {
            return j;
        }
        j = j + 1;
    }
    j
}

/// What a scan up to the first separator says about the segment split.
pub proof fn lemma_split_seg_scan(p: Seq<u8>, j: int)
    requires
        0 <= j <= p.len(),
        forall|k: int| 0 <= k < j ==> p[k] != sep(),
        j < p.len() ==> p[j] == sep(),
    ensures
        split_seg(p).0 == p.take(j),
        split_seg(p).1 == (if j < p.len() {
            Some(p.skip(j + 1))
        } else {
            None::<Seq<u8>>
        }),
    decreases p.len(),
{
    if p.len() == 0 {
        assert(p.take(0) =~= split_seg(p).0);
    } else if p[0] == sep() {
        assert(j == 0);
        assert(p.take(0) =~= Seq::<u8>::empty());
        assert(split_seg(p).0 =~= p.take(0));
        assert(p.skip(1) =~= p.drop_first());
    } else {
        assert(j > 0);
        assert forall|k: int| 0 <= k < j - 1 implies p.drop_first()[k] != sep() by {
            assert(p.drop_first()[k] == p[k + 1]);
        }
        assert(j - 1 < p.drop_first().len() ==> p.drop_first()[j - 1] == sep());
        lemma_split_seg_scan(p.drop_first(), j - 1);
        assert(seq![p[0]] + p.drop_first().take(j - 1) =~= p.take(j));
        if j < p.len() {
            assert(p.drop_first().skip(j) =~= p.skip(j + 1));
        }
    }
}

/// Appending a separator to a path leaves its first segment alone, and
/// turns a clean end into an empty remainder.
pub proof fn lemma_split_seg_push_sep(p: Seq<u8>)
    ensures
        split_seg(p.push(sep())).0 == split_seg(p).0,
        split_seg(p.push(sep())).1 == (match split_seg(p).1 {
            None => Some(Seq::<u8>::empty()),
            Some(r) => Some(r.push(sep())),
        }),
    decreases p.len(),
{
    if p.len() == 0 {
        assert(p.push(sep())[0] == sep());
        assert(p.push(sep()).drop_first() =~= Seq::<u8>::empty());
        assert(split_seg(p.push(sep())).0 =~= split_seg(p).0);
    } else if p[0] == sep() {
        assert(p.push(sep())[0] == sep());
        assert(p.push(sep()).drop_first() =~= p.drop_first().push(sep()));
    } else {
        assert(p.push(sep())[0] == p[0]);
        assert(p.push(sep()).drop_first() =~= p.drop_first().push(sep()));
        lemma_split_seg_push_sep(p.drop_first());
    }
}

/// Split the segment that starts at a position, returning its bounds.
pub fn take_seg_bounds(path: &[u8], i: usize) -> (r: (usize, usize))
    requires
        i <= path@.len(),
    ensures
        i <= r.0 <= path@.len(),
        split_seg(path@.skip(i as int)).0 == path@.subrange(i as int, r.0 as int),
        r.0 < path@.len() ==> path@[r.0 as int] == sep() && r.1 == r.0 + 1 && split_seg(
            path@.skip(i as int),
        ).1 == Some(path@.skip(r.1 as int)),
        r.0 == path@.len() ==> r.1 == r.0 && split_seg(path@.skip(i as int)).1 is None,
{
    let j = seg_end(path, i);
    proof {
        let q = path@.skip(i as int);
        assert forall|k: int| 0 <= k < j - i implies q[k] != sep() by {
            assert(q[k] == path@[i + k]);
        }
        assert(j - i < q.len() ==> q[j - i] == sep());
        lemma_split_seg_scan(q, j - i);
        assert(q.take(j - i) =~= path@.subrange(i as int, j as int));
        if j < path@.len() {
            assert(q.skip(j - i + 1) =~= path@.skip(j + 1));
        }
    }
    if j < path.len() {
        (j, j + 1)
    } else {
        (j, j)
    }
}

/// Whether two byte slices hold the same bytes.
pub fn bytes_eq(a: &[u8], b: &[u8]) -> (r: bool)
    ensures
        r == (a@ == b@),
{
    if a.len() != b.len() {
        return false;
    }
    let n = a.len();
    let mut i: usize = 0;
    while i < n
        invariant
            n == a@.len(),
            n == b@.len(),
            i <= n,
            forall|k: int| 0 <= k < i ==> a@[k] == b@[k],
        decreases n - i,
    {
        if a[i] != b[i] {
            return false;
        }
        i = i + 1;
    }
    proof {
        assert(a@ =~= b@);
    }
    true
}

/// Whether a request method equals a method literal.
pub fn method_is(m: &[u8], lit: &str) -> (r: bool)
    ensures
        r == (m@ == lit.spec_bytes()),
{
    bytes_eq(m, lit.as_bytes())
}

/// What parsing a route-parameter identifier yields: the identifier's value
/// when the text is one of the forms the identifier crate accepts, and
/// nothing otherwise.  The result depends on the bytes alone.
pub uninterp spec fn uuid_of(s: Seq<u8>) -> Option<u128>;

/// The canonical hyphenated text of an identifier value.  The result
/// depends on the value alone.
pub uninterp spec fn uuid_str(v: u128) -> Seq<char>;

/// The bytes of an ASCII character sequence.
pub open spec fn ascii_bytes(s: Seq<char>) -> Seq<u8> {
    s.map_values(|c: char| c as u8)
}

/// Relies on `uuid::Uuid::try_parse_ascii` and `uuid::Uuid::as_u128`: the
/// parser accepts or rejects depending on the input bytes alone, and
/// `as_u128` reads the sixteen parsed bytes back as one value.
#[verifier::external_body]
pub fn parse_uuid(s: &[u8]) -> (r: Option<u128>)
    ensures
        r == uuid_of(s@),
{
    match Uuid::try_parse_ascii(s) {
        Ok(u) => Some(u.as_u128()),
        Err(_) => None,
    }
}

/// Relies on `String::from_utf8` of std: it succeeds exactly on valid
/// UTF-8 and decodes it.
#[verifier::external_body]
pub fn bytes_to_string(v: Vec<u8>) -> (r: Option<String>)
    ensures
        r matches Some(s) ==> vstd::utf8::valid_utf8(v@) && s@ == vstd::utf8::decode_utf8(v@),
        r is None ==> !vstd::utf8::valid_utf8(v@),
{
    match String::from_utf8(v) {
        Ok(s) => Some(s),
        Err(_) => None,
    }
}

/// Owned bytes of a slice's range.
pub fn slice_range_vec(s: &[u8], i: usize, j: usize) -> (r: Vec<u8>)
    requires
        i <= j <= s@.len(),
    ensures
        r@ == s@.subrange(i as int, j as int),
{
    let mut out: Vec<u8> = Vec::new();
    let mut k = i;
    while k < j
        invariant
            i <= k <= j <= s@.len(),
            out@ =~= s@.subrange(i as int, k as int),
        decreases j - k,
    {
        out.push(s[k]);
        proof {
            assert(out@ =~= s@.subrange(i as int, k + 1));
        }
        k = k + 1;
    }
    out
}

/// Relies on `uuid::Uuid::from_u128` and the `Display` of `uuid::Uuid`: the
/// rendering is the lowercase hyphenated form, thirty-six ASCII characters
/// with no separator byte among them, and parsing it back yields the same
/// value, as the crate documents of its hyphenated format.
#[verifier::external_body]
pub fn uuid_to_string(v: u128) -> (r: String)
    ensures
        r@ == uuid_str(v),
        r@.len() == 36,
        forall|i: int| 0 <= i < r@.len() ==> (#[trigger] r@[i]) as u8 != sep() && r@[i] as u32
            <= 127,
        uuid_of(ascii_bytes(r@)) == Some(v),
{
    Uuid::from_u128(v).to_string()
}

} // verus!
