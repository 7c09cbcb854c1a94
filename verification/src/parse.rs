//! The textual route-file syntax: header lines, a `/` line, then blocks
//! indented by two spaces per level holding query parameters, resource
//! lines and nested path segments.
//!
//! Each function parses one form at a byte position and yields the position
//! after it.  A parser that accepts always advances, which bounds every
//! repetition.

use vstd::prelude::*;
use vstd::string::StringSliceAdditionalSpecFns;

use crate::config::{
    Header, Method, NestedRoutes, NestedRoutesV, Param, ParamV, PathSegment, PathSegmentV,
    Resource, ResourceV, RouteConfig, RouteConfigV, Routes, RoutesV, spec_nested_list_view,
};
use crate::matching::{bytes_to_string, slice_range_vec};

verus! {


/// The position after any spaces and tabs at a position.
pub open spec fn spec_skip_ws(s: Seq<u8>, pos: int) -> int
    decreases s.len() - pos,
{
    if 0 <= pos < s.len() && (s[pos] == 32 || s[pos] == 9) {
        spec_skip_ws(s, pos + 1)
    } else {
        pos
    }
}

/// Skipping blanks stays within the input.
pub proof fn lemma_skip_ws_bounds(s: Seq<u8>, pos: int)
    requires
        0 <= pos <= s.len(),
    ensures
        pos <= spec_skip_ws(s, pos) <= s.len(),
    decreases s.len() - pos,
{
    if 0 <= pos < s.len() && (s[pos] == 32 || s[pos] == 9) {
        lemma_skip_ws_bounds(s, pos + 1);
    }
}

/// The position after a greedy run of line endings at a position.
pub open spec fn spec_eat_endings(s: Seq<u8>, pos: int) -> int
    decreases s.len() - pos,
{
    if 0 <= pos < s.len() && s[pos] == 10 {
        spec_eat_endings(s, pos + 1)
    } else if 0 <= pos && pos + 1 < s.len() && s[pos] == 13 && s[pos + 1] == 10 {
        spec_eat_endings(s, pos + 2)
    } else {
        pos
    }
}

/// Eating line endings stays within the input.
pub proof fn lemma_eat_endings_bounds(s: Seq<u8>, pos: int)
    requires
        0 <= pos <= s.len(),
    ensures
        pos <= spec_eat_endings(s, pos) <= s.len(),
    decreases s.len() - pos,
{
    if 0 <= pos < s.len() && s[pos] == 10 {
        lemma_eat_endings_bounds(s, pos + 1);
    } else if 0 <= pos && pos + 1 < s.len() && s[pos] == 13 && s[pos + 1] == 10 {
        lemma_eat_endings_bounds(s, pos + 2);
    }
}

/// One or more line endings at a position, or nothing.
pub open spec fn spec_line_endings(s: Seq<u8>, pos: int) -> Option<int> {
    if spec_eat_endings(s, pos) > pos {
        Some(spec_eat_endings(s, pos))
    } else {
        None
    }
}

/// The end of the run of identifier bytes at a position.
pub open spec fn spec_ident_end(s: Seq<u8>, pos: int) -> int
    decreases s.len() - pos,
{
    if 0 <= pos < s.len() && (97 <= s[pos] <= 122 || 65 <= s[pos] <= 90 || 48 <= s[pos] <= 57
        || s[pos] == 95) {
        spec_ident_end(s, pos + 1)
    } else {
        pos
    }
}

/// The identifier run stays within the input.
pub proof fn lemma_ident_end_bounds(s: Seq<u8>, pos: int)
    requires
        0 <= pos <= s.len(),
    ensures
        pos <= spec_ident_end(s, pos) <= s.len(),
    decreases s.len() - pos,
{
    if 0 <= pos < s.len() && (97 <= s[pos] <= 122 || 65 <= s[pos] <= 90 || 48 <= s[pos] <= 57
        || s[pos] == 95) {
        lemma_ident_end_bounds(s, pos + 1);
    }
}

/// A non-empty run of identifier bytes at a position, decoded: the run and
/// the position after it, or nothing when the run is empty or its bytes are
/// not text.
pub open spec fn spec_identifier(s: Seq<u8>, pos: int) -> Option<(int, Seq<char>)> {
    let e = spec_ident_end(s, pos);
    if e == pos {
        None
    } else if vstd::utf8::valid_utf8(s.subrange(pos, e)) {
        Some((e, vstd::utf8::decode_utf8(s.subrange(pos, e))))
    } else {
        None
    }
}

/// Exactly two spaces per nesting level at a position.
pub open spec fn spec_indentation(s: Seq<u8>, pos: int, level: int) -> Option<int> {
    if level > usize::MAX / 2 {
        None
    } else if 2 * level > s.len() - pos {
        None
    } else if forall|k: int| 0 <= k < 2 * level ==> #[trigger] s[pos + k] == 32 {
        Some(pos + 2 * level)
    } else {
        None
    }
}

/// One literal byte at a position.
pub open spec fn spec_expect(s: Seq<u8>, pos: int, b: u8) -> Option<int> {
    if pos < s.len() && s[pos] == b {
        Some(pos + 1)
    } else {
        None
    }
}

/// One ASCII byte, in either case, at a position.
pub open spec fn spec_expect_nocase(s: Seq<u8>, pos: int, lower: u8) -> Option<int> {
    if pos < s.len() && (s[pos] == lower || s[pos] == lower - 32) {
        Some(pos + 1)
    } else {
        None
    }
}

/// A case-insensitive keyword of lowercase bytes at a position.
pub open spec fn spec_word_nocase(s: Seq<u8>, pos: int, w: Seq<u8>) -> Option<int> {
    if pos + w.len() <= s.len() && (forall|k: int|
        0 <= k < w.len() ==> #[trigger] s[pos + k] == w[k] || s[pos + k] == w[k] - 32) {
        Some(pos + w.len())
    } else {
        None
    }
}

/// The method keyword at a position, case-insensitively: the longest match
/// among the four, trying `get`, `post`, `put`, `delete` in that order.
pub open spec fn spec_method(s: Seq<u8>, pos: int) -> Option<(int, Method)> {
    if spec_word_nocase(s, pos, seq![103u8, 101u8, 116u8]) is Some {
        Some((pos + 3, Method::Get))
    } else if spec_word_nocase(s, pos, seq![112u8, 111u8, 115u8, 116u8]) is Some {
        Some((pos + 4, Method::Post))
    } else if spec_word_nocase(s, pos, seq![112u8, 117u8, 116u8]) is Some {
        Some((pos + 3, Method::Put))
    } else if spec_expect_nocase(s, pos, 112) is Some {
        None
    } else if spec_word_nocase(s, pos, seq![100u8, 101u8, 108u8, 101u8, 116u8, 101u8]) is Some {
        Some((pos + 6, Method::Delete))
    } else {
        None
    }
}

/// A parameter at a position: an identifier, a colon amid optional blanks,
/// and a type identifier.
pub open spec fn spec_param(s: Seq<u8>, pos: int) -> Option<(int, ParamV)> {
    match spec_identifier(s, pos) {
        None => None,
        Some((j1, name)) => {
            let j2 = spec_skip_ws(s, j1);
            match spec_expect(s, j2, 58) {
                None => None,
                Some(j3) => {
                    let j4 = spec_skip_ws(s, j3);
                    match spec_identifier(s, j4) {
                        None => None,
                        Some((j5, typ)) => Some((j5, ParamV { name: name, typ: typ })),
                    }
                },
            }
        },
    }
}

/// An indented path segment line at a position.
pub open spec fn spec_path_segment(s: Seq<u8>, pos: int, level: int) -> Option<
    (int, PathSegmentV),
> {
    match spec_indentation(s, pos, level) {
        None => None,
        Some(j0) => match spec_expect(s, j0, 123) {
            Some(j1) => {
                let j2 = spec_skip_ws(s, j1);
                match spec_param(s, j2) {
                    None => None,
                    Some((j3, p)) => {
                        let j4 = spec_skip_ws(s, j3);
                        match spec_expect(s, j4, 125) {
                            None => None,
                            Some(j5) => Some((j5, PathSegmentV::Dynamic(p))),
                        }
                    },
                }
            },
            None => match spec_identifier(s, j0) {
                None => None,
                Some((j1, text)) => Some((j1, PathSegmentV::Static(text))),
            },
        },
    }
}

/// An indented query-parameter line at a position.
pub open spec fn spec_query_parameter(s: Seq<u8>, pos: int, level: int) -> Option<(int, ParamV)> {
    match spec_indentation(s, pos, level) {
        None => None,
        Some(j0) => match spec_expect(s, j0, 91) {
            None => None,
            Some(j1) => {
                let j2 = spec_skip_ws(s, j1);
                match spec_param(s, j2) {
                    None => None,
                    Some((j3, p)) => {
                        let j4 = spec_skip_ws(s, j3);
                        match spec_expect(s, j4, 93) {
                            None => None,
                            Some(j5) => Some((j5, p)),
                        }
                    },
                }
            },
        },
    }
}

/// Whether a character may appear in an identifier: an ASCII letter, an
/// ASCII digit, or an underscore.
pub open spec fn spec_identifier_char(ch: char) -> bool {
    ('a' <= ch <= 'z') || ('A' <= ch <= 'Z') || ('0' <= ch <= '9') || ch == '_'
}

/// Whether a character may appear in an identifier.
pub fn is_identifier_char(ch: char) -> (r: bool)
    ensures
        r == spec_identifier_char(ch),
{
    let u = ch as u32;
    (97 <= u && u <= 122) || (65 <= u && u <= 90) || (48 <= u && u <= 57) || u == 95
}

/// Whether a byte may appear in an identifier.
fn is_ident_byte(b: u8) -> (r: bool)
    ensures
        r == (97 <= b <= 122 || 65 <= b <= 90 || 48 <= b <= 57 || b == 95),
{
    (97 <= b && b <= 122) || (65 <= b && b <= 90) || (48 <= b && b <= 57) || b == 95
}

/// Skip spaces and tabs.
fn skip_ws(input: &[u8], pos: usize) -> (j: usize)
    requires
        pos <= input@.len(),
    ensures
        pos <= j <= input@.len(),
        j as int == spec_skip_ws(input@, pos as int),
{
    let n = input.len();
    let mut j = pos;
    while j < n
        invariant
            pos <= j <= n,
            n == input@.len(),
            spec_skip_ws(input@, pos as int) == spec_skip_ws(input@, j as int),
        decreases n - j,
    {
        if input[j] != 32 && input[j] != 9 {
            return j;
        }
        j = j + 1;
    }
    j
}

/// One or more line endings, each a newline or a carriage return and a
/// newline.
fn line_endings(input: &[u8], pos: usize) -> (r: Option<usize>)
    requires
        pos <= input@.len(),
    ensures
        r matches Some(j) ==> pos < j <= input@.len(),
        match r {
            None => spec_line_endings(input@, pos as int) is None,
            Some(j) => spec_line_endings(input@, pos as int) == Some(j as int),
        },
{
    let n = input.len();
    let mut j = pos;
    let mut seen = false;
    while j < n
        invariant
            pos <= j <= n,
            n == input@.len(),
            seen ==> pos < j,
            seen == (j > pos),
            spec_eat_endings(input@, pos as int) == spec_eat_endings(input@, j as int),
        ensures
            pos <= j <= n,
            seen == (j > pos),
            spec_eat_endings(input@, pos as int) == spec_eat_endings(input@, j as int),
            j == n || (input@[j as int] != 10 && (input@[j as int] != 13 || j + 1 >= n
                || input@[j as int + 1] != 10)),
        decreases n - j,
    {
        if input[j] == 10 {
            j = j + 1;
            seen = true;
        } else if input[j] == 13 && j + 1 < n && input[j + 1] == 10 {
            j = j + 2;
            seen = true;
        } else {
            break;
        }
    }
    proof {
        assert(spec_eat_endings(input@, j as int) == j as int);
    }
    if seen {
        Some(j)
    } else {
        None
    }
}

/// A non-empty run of identifier bytes, yielded as text.
fn identifier(input: &[u8], pos: usize) -> (r: Option<(usize, String)>)
    requires
        pos <= input@.len(),
    ensures
        r matches Some(p) ==> pos < p.0 <= input@.len(),
        match r {
            None => spec_identifier(input@, pos as int) is None,
            Some((j, v)) => spec_identifier(input@, pos as int) == Some((j as int, v@)),
        },
{
    let n = input.len();
    let mut j = pos;
    while j < n
        invariant
            pos <= j <= n,
            n == input@.len(),
            spec_ident_end(input@, pos as int) == spec_ident_end(input@, j as int),
        ensures
            pos <= j <= n,
            spec_ident_end(input@, pos as int) == spec_ident_end(input@, j as int),
            j == n || !(97 <= input@[j as int] <= 122 || 65 <= input@[j as int] <= 90 || 48
                <= input@[j as int] <= 57 || input@[j as int] == 95),
        decreases n - j,
    {
        if !is_ident_byte(input[j]) {
            break;
        }
        j = j + 1;
    }
    proof {
        assert(spec_ident_end(input@, j as int) == j as int);
    }
    if j == pos {
        return None;
    }
    let bytes = slice_range_vec(input, pos, j);
    match bytes_to_string(bytes) {
        None => None,
        Some(s) => Some((j, s)),
    }
}

/// Exactly two spaces per nesting level.
fn indentation(input: &[u8], pos: usize, level: usize) -> (r: Option<usize>)
    requires
        pos <= input@.len(),
    ensures
        r matches Some(j) ==> pos <= j <= input@.len() && j - pos == 2 * level,
        match r {
            None => spec_indentation(input@, pos as int, level as int) is None,
            Some(j) => spec_indentation(input@, pos as int, level as int) == Some(j as int),
        },
{
    if level > usize::MAX / 2 {
        return None;
    }
    let need = 2 * level;
    let n = input.len();
    if need > n - pos {
        return None;
    }
    let mut k: usize = 0;
    while k < need
        invariant
            k <= need,
            pos + need <= n,
            need == 2 * level,
            level <= usize::MAX / 2,
            n == input@.len(),
            forall|q: int| 0 <= q < k ==> #[trigger] input@[pos + q] == 32,
        decreases need - k,
    {
        if input[pos + k] != 32 {
            return None;
        }
        k = k + 1;
    }
    Some(pos + need)
}

/// A literal byte.
fn expect(input: &[u8], pos: usize, b: u8) -> (r: Option<usize>)
    requires
        pos <= input@.len(),
    ensures
        r matches Some(j) ==> j == pos + 1 && pos < input@.len(),
        match r {
            None => spec_expect(input@, pos as int, b) is None,
            Some(j) => spec_expect(input@, pos as int, b) == Some(j as int),
        },
{
    if pos < input.len() && input[pos] == b {
        Some(pos + 1)
    } else {
        None
    }
}

/// An ASCII byte or its other case.
fn expect_nocase(input: &[u8], pos: usize, lower: u8) -> (r: Option<usize>)
    requires
        pos <= input@.len(),
        97 <= lower <= 122,
    ensures
        r matches Some(j) ==> j == pos + 1 && pos < input@.len(),
        match r {
            None => spec_expect_nocase(input@, pos as int, lower) is None,
            Some(j) => spec_expect_nocase(input@, pos as int, lower) == Some(j as int),
        },
{
    if pos < input.len() && (input[pos] == lower || input[pos] == lower - 32) {
        Some(pos + 1)
    } else {
        None
    }
}

/// An HTTP method keyword, case-insensitively.
#[verifier::rlimit(60)]
pub fn method(input: &[u8], pos: usize) -> (r: Option<(usize, Method)>)
    requires
        pos <= input@.len(),
    ensures
        r matches Some(p) ==> pos < p.0 <= input@.len(),
        match r {
            None => spec_method(input@, pos as int) is None,
            Some((j, m)) => spec_method(input@, pos as int) == Some((j as int, m)),
        },
{
    let ghost g: Seq<u8> = seq![103u8, 101u8, 116u8];
    let ghost po: Seq<u8> = seq![112u8, 111u8, 115u8, 116u8];
    let ghost pu: Seq<u8> = seq![112u8, 117u8, 116u8];
    let ghost d: Seq<u8> = seq![100u8, 101u8, 108u8, 101u8, 116u8, 101u8];
    match keyword3(input, pos, 103, 101, 116) {
        Some(j) => {
            proof {
                assert(spec_word_nocase(input@, pos as int, g) is Some);
            }
            return Some((j, Method::Get));
        },
        None => {},
    }
    proof {
        assert(spec_word_nocase(input@, pos as int, g) is None) by {
            if spec_word_nocase(input@, pos as int, g) is Some {
                assert(input@[pos as int + 0] == g[0] || input@[pos as int + 0] == g[0] - 32);
                assert(input@[pos as int + 1] == g[1] || input@[pos as int + 1] == g[1] - 32);
                assert(input@[pos as int + 2] == g[2] || input@[pos as int + 2] == g[2] - 32);
            }
        }
    }
    match keyword4(input, pos, 112, 111, 115, 116) {
        Some(j) => {
            proof {
                assert(spec_word_nocase(input@, pos as int, po) is Some);
            }
            return Some((j, Method::Post));
        },
        None => {},
    }
    proof {
        assert(spec_word_nocase(input@, pos as int, po) is None) by {
            if spec_word_nocase(input@, pos as int, po) is Some {
                assert(input@[pos as int + 0] == po[0] || input@[pos as int + 0] == po[0] - 32);
                assert(input@[pos as int + 1] == po[1] || input@[pos as int + 1] == po[1] - 32);
                assert(input@[pos as int + 2] == po[2] || input@[pos as int + 2] == po[2] - 32);
                assert(input@[pos as int + 3] == po[3] || input@[pos as int + 3] == po[3] - 32);
            }
        }
    }
    match keyword3(input, pos, 112, 117, 116) {
        Some(j) => {
            proof {
                assert(spec_word_nocase(input@, pos as int, pu) is Some);
            }
            return Some((j, Method::Put));
        },
        None => {},
    }
    proof {
        assert(spec_word_nocase(input@, pos as int, pu) is None) by {
            if spec_word_nocase(input@, pos as int, pu) is Some {
                assert(input@[pos as int + 0] == pu[0] || input@[pos as int + 0] == pu[0] - 32);
                assert(input@[pos as int + 1] == pu[1] || input@[pos as int + 1] == pu[1] - 32);
                assert(input@[pos as int + 2] == pu[2] || input@[pos as int + 2] == pu[2] - 32);
            }
        }
    }
    match expect_nocase(input, pos, 112) {
        Some(_) => {
            return None;
        },
        None => {},
    }
    match keyword6(input, pos, 100, 101, 108, 101, 116, 101) {
        Some(j) => {
            proof {
                assert(spec_word_nocase(input@, pos as int, d) is Some);
            }
            return Some((j, Method::Delete));
        },
        None => {},
    }
    proof {
        assert(spec_word_nocase(input@, pos as int, d) is None) by {
            if spec_word_nocase(input@, pos as int, d) is Some {
                assert(input@[pos as int + 0] == d[0] || input@[pos as int + 0] == d[0] - 32);
                assert(input@[pos as int + 1] == d[1] || input@[pos as int + 1] == d[1] - 32);
                assert(input@[pos as int + 2] == d[2] || input@[pos as int + 2] == d[2] - 32);
                assert(input@[pos as int + 3] == d[3] || input@[pos as int + 3] == d[3] - 32);
                assert(input@[pos as int + 4] == d[4] || input@[pos as int + 4] == d[4] - 32);
                assert(input@[pos as int + 5] == d[5] || input@[pos as int + 5] == d[5] - 32);
            }
        }
    }
    None
}

/// Three lowercase bytes, case-insensitively.
fn keyword3(input: &[u8], pos: usize, a: u8, b: u8, c: u8) -> (r: Option<usize>)
    requires
        pos <= input@.len(),
        97 <= a <= 122 && 97 <= b <= 122 && 97 <= c <= 122,
    ensures
        match r {
            None => spec_word_nocase(input@, pos as int, seq![a, b, c]) is None,
            Some(j) => spec_word_nocase(input@, pos as int, seq![a, b, c]) == Some(j as int) && j
                == pos + 3,
        },
{
    let ghost w: Seq<u8> = seq![a, b, c];
    if input.len() - pos >= 3 {
        let ok = matches_nocase(input[pos], a) && matches_nocase(input[pos + 1], b)
            && matches_nocase(input[pos + 2], c);
        if ok {
            proof {
                assert forall|k: int| 0 <= k < 3 implies #[trigger] input@[pos + k] == w[k]
                    || input@[pos + k] == w[k] - 32 by {
                }
            }
            Some(pos + 3)
        } else {
            proof {
                if spec_word_nocase(input@, pos as int, w) is Some {
                    assert(input@[pos as int + 0] == w[0] || input@[pos as int + 0] == w[0] - 32);
                    assert(input@[pos as int + 1] == w[1] || input@[pos as int + 1] == w[1] - 32);
                    assert(input@[pos as int + 2] == w[2] || input@[pos as int + 2] == w[2] - 32);
                }
            }
            None
        }
    } else {
        None
    }
}

/// Four lowercase bytes, case-insensitively.
fn keyword4(input: &[u8], pos: usize, a: u8, b: u8, c: u8, d: u8) -> (r: Option<usize>)
    requires
        pos <= input@.len(),
        97 <= a <= 122 && 97 <= b <= 122 && 97 <= c <= 122 && 97 <= d <= 122,
    ensures
        match r {
            None => spec_word_nocase(input@, pos as int, seq![a, b, c, d]) is None,
            Some(j) => spec_word_nocase(input@, pos as int, seq![a, b, c, d]) == Some(j as int)
                && j == pos + 4,
        },
{
    let ghost w: Seq<u8> = seq![a, b, c, d];
    if input.len() - pos >= 4 {
        let ok = matches_nocase(input[pos], a) && matches_nocase(input[pos + 1], b)
            && matches_nocase(input[pos + 2], c) && matches_nocase(input[pos + 3], d);
        if ok {
            proof {
                assert forall|k: int| 0 <= k < 4 implies #[trigger] input@[pos + k] == w[k]
                    || input@[pos + k] == w[k] - 32 by {
                }
            }
            Some(pos + 4)
        } else {
            proof {
                if spec_word_nocase(input@, pos as int, w) is Some {
                    assert(input@[pos as int + 0] == w[0] || input@[pos as int + 0] == w[0] - 32);
                    assert(input@[pos as int + 1] == w[1] || input@[pos as int + 1] == w[1] - 32);
                    assert(input@[pos as int + 2] == w[2] || input@[pos as int + 2] == w[2] - 32);
                    assert(input@[pos as int + 3] == w[3] || input@[pos as int + 3] == w[3] - 32);
                }
            }
            None
        }
    } else {
        None
    }
}

/// Six lowercase bytes, case-insensitively.
fn keyword6(input: &[u8], pos: usize, a: u8, b: u8, c: u8, d: u8, e: u8, f: u8) -> (r: Option<
    usize,
>)
    requires
        pos <= input@.len(),
        97 <= a <= 122 && 97 <= b <= 122 && 97 <= c <= 122 && 97 <= d <= 122 && 97 <= e <= 122
            && 97 <= f <= 122,
    ensures
        match r {
            None => spec_word_nocase(input@, pos as int, seq![a, b, c, d, e, f]) is None,
            Some(j) => spec_word_nocase(input@, pos as int, seq![a, b, c, d, e, f]) == Some(
                j as int,
            ) && j == pos + 6,
        },
{
    let ghost w: Seq<u8> = seq![a, b, c, d, e, f];
    if input.len() - pos >= 6 {
        let ok = matches_nocase(input[pos], a) && matches_nocase(input[pos + 1], b)
            && matches_nocase(input[pos + 2], c) && matches_nocase(input[pos + 3], d)
            && matches_nocase(input[pos + 4], e) && matches_nocase(input[pos + 5], f);
        if ok {
            proof {
                assert forall|k: int| 0 <= k < 6 implies #[trigger] input@[pos + k] == w[k]
                    || input@[pos + k] == w[k] - 32 by {
                }
            }
            Some(pos + 6)
        } else {
            proof {
                if spec_word_nocase(input@, pos as int, w) is Some {
                    assert(input@[pos as int + 0] == w[0] || input@[pos as int + 0] == w[0] - 32);
                    assert(input@[pos as int + 1] == w[1] || input@[pos as int + 1] == w[1] - 32);
                    assert(input@[pos as int + 2] == w[2] || input@[pos as int + 2] == w[2] - 32);
                    assert(input@[pos as int + 3] == w[3] || input@[pos as int + 3] == w[3] - 32);
                    assert(input@[pos as int + 4] == w[4] || input@[pos as int + 4] == w[4] - 32);
                    assert(input@[pos as int + 5] == w[5] || input@[pos as int + 5] == w[5] - 32);
                }
            }
            None
        }
    } else {
        None
    }
}

/// Whether a byte is a lowercase letter or its uppercase form.
fn matches_nocase(have: u8, lower: u8) -> (r: bool)
    requires
        97 <= lower <= 122,
    ensures
        r == (have == lower || have == lower - 32),
{
    have == lower || have == lower - 32
}

/// A parameter: an identifier, a colon amid optional blanks, and a type
/// identifier.
pub fn param(input: &[u8], pos: usize) -> (r: Option<(usize, Param)>)
    requires
        pos <= input@.len(),
    ensures
        r matches Some(p) ==> pos < p.0 <= input@.len(),
        match r {
            None => spec_param(input@, pos as int) is None,
            Some((j, v)) => spec_param(input@, pos as int) == Some((j as int, v@)),
        },
{
    let (j1, name) = match identifier(input, pos) {
        None => {
            return None;
        },
        Some(p) => p,
    };
    let j2 = skip_ws(input, j1);
    let j3 = match expect(input, j2, 58) {
        None => {
            return None;
        },
        Some(j) => j,
    };
    let j4 = skip_ws(input, j3);
    let (j5, typ) = match identifier(input, j4) {
        None => {
            return None;
        },
        Some(p) => p,
    };
    Some((j5, Param { name, typ }))
}

/// An indented path segment line: a braced dynamic parameter or a static
/// identifier.
pub fn path_segment(input: &[u8], pos: usize, level: usize) -> (r: Option<(usize, PathSegment)>)
    requires
        pos <= input@.len(),
    ensures
        r matches Some(p) ==> pos <= p.0 <= input@.len(),
        match r {
            None => spec_path_segment(input@, pos as int, level as int) is None,
            Some((j, v)) => spec_path_segment(input@, pos as int, level as int) == Some(
                (j as int, v@),
            ),
        },
{
    let j0 = match indentation(input, pos, level) {
        None => {
            return None;
        },
        Some(j) => j,
    };
    match expect(input, j0, 123) {
        Some(j1) => {
            let j2 = skip_ws(input, j1);
            let (j3, p) = match param(input, j2) {
                None => {
                    return None;
                },
                Some(x) => x,
            };
            let j4 = skip_ws(input, j3);
            let j5 = match expect(input, j4, 125) {
                None => {
                    return None;
                },
                Some(j) => j,
            };
            Some((j5, PathSegment::Dynamic(p)))
        },
        None => {
            let (j1, text) = match identifier(input, j0) {
                None => {
                    return None;
                },
                Some(x) => x,
            };
            Some((j1, PathSegment::Static(text)))
        },
    }
}

/// An indented query-parameter line: a parameter in square brackets.
pub fn query_parameter(input: &[u8], pos: usize, level: usize) -> (r: Option<(usize, Param)>)
    requires
        pos <= input@.len(),
    ensures
        r matches Some(p) ==> pos <= p.0 <= input@.len(),
        match r {
            None => spec_query_parameter(input@, pos as int, level as int) is None,
            Some((j, v)) => spec_query_parameter(input@, pos as int, level as int) == Some(
                (j as int, v@),
            ),
        },
{
    let j0 = match indentation(input, pos, level) {
        None => {
            return None;
        },
        Some(j) => j,
    };
    let j1 = match expect(input, j0, 91) {
        None => {
            return None;
        },
        Some(j) => j,
    };
    let j2 = skip_ws(input, j1);
    let (j3, p) = match param(input, j2) {
        None => {
            return None;
        },
        Some(x) => x,
    };
    let j4 = skip_ws(input, j3);
    let j5 = match expect(input, j4, 93) {
        None => {
            return None;
        },
        Some(j) => j,
    };
    Some((j5, p))
}


/// Further module qualifiers after an identifier: while a `::` follows,
/// skip blanks and take the next identifier.
pub open spec fn spec_quals_more(s: Seq<u8>, pos: int) -> Option<(int, Seq<Seq<char>>)>
    decreases s.len() - pos,
{
    if 0 <= pos && pos < s.len() && pos + 1 < s.len() && s[pos] == 58 && s[pos + 1] == 58 {
        let j3 = spec_skip_ws(s, pos + 2);
        if pos + 2 <= j3 <= s.len() {
            match spec_identifier(s, j3) {
                None => None,
                Some((j4, nm)) => {
                    if j3 < j4 <= s.len() {
                        match spec_quals_more(s, j4) {
                            None => None,
                            Some((j, rest)) => Some((j, seq![nm] + rest)),
                        }
                    } else {
                        None
                    }
                },
            }
        } else {
            None
        }
    } else {
        Some((pos, Seq::empty()))
    }
}

/// A `::`-separated chain of identifiers.
pub open spec fn spec_quals(s: Seq<u8>, pos: int) -> Option<(int, Seq<Seq<char>>)> {
    match spec_identifier(s, pos) {
        None => None,
        Some((j2, nm)) => match spec_quals_more(s, j2) {
            None => None,
            Some((j, rest)) => Some((j, seq![nm] + rest)),
        },
    }
}

/// A handler target at a position: an optional redirect arrow, module
/// qualifiers, and a final name.
pub open spec fn spec_target(s: Seq<u8>, pos: int) -> Option<(int, bool, Seq<Seq<char>>, Seq<char>)> {
    let redirect = 0 <= pos && pos < s.len() && pos + 1 < s.len() && s[pos] == 45 && s[pos + 1]
        == 62;
    let j = if redirect {
        spec_skip_ws(s, pos + 2)
    } else {
        pos
    };
    match spec_quals(s, j) {
        None => None,
        Some((j2, names)) => if names.len() >= 1 {
            Some((j2, redirect, names.drop_last(), names.last()))
        } else {
            None
        },
    }
}

/// A handler target: an optional redirect arrow, module qualifiers each
/// followed by `::`, and a final name.
fn target(input: &[u8], pos: usize) -> (r: Option<(usize, bool, Vec<String>, String)>)
    requires
        pos <= input@.len(),
    ensures
        r matches Some(p) ==> pos <= p.0 <= input@.len(),
        match r {
            None => spec_target(input@, pos as int) is None,
            Some((j, red, ms, nm)) => spec_target(input@, pos as int) == Some(
                (j as int, red, ms@.map_values(|m: String| m@), nm@),
            ),
        },
{
    let n = input.len();
    let mut j = pos;
    let mut is_redirect = false;
    if j < n && j + 1 < n && input[j] == 45 && input[j + 1] == 62 {
        is_redirect = true;
        j = skip_ws(input, j + 2);
    }
    let mut names: Vec<String> = Vec::new();
    let (mut j2, first) = match identifier(input, j) {
        None => {
            return None;
        },
        Some(x) => x,
    };
    names.push(first);
    let ghost q0 = j2 as int;
    proof {
        assert(names@.map_values(|m: String| m@) =~= seq![first@]);
        assert(names@.map_values(|m: String| m@).drop_first() =~= Seq::<Seq<char>>::empty());
        match spec_quals_more(input@, q0) {
            None => {},
            Some((fj, rest)) => {
                assert(Seq::<Seq<char>>::empty() + rest =~= rest);
                assert(spec_quals_more(input@, q0) == Some(
                    (fj, names@.map_values(|m: String| m@).drop_first() + rest),
                ));
            },
        }
    }
    while j2 < n && j2 + 1 < n && input[j2] == 58 && input[j2 + 1] == 58
        invariant
            pos <= j2 <= n,
            n == input@.len(),
            names@.len() >= 1,
            spec_identifier(input@, j as int) == Some((q0, first@)),
            is_redirect == (pos < input@.len() && pos + 1 < input@.len() && input@[pos as int]
                == 45 && input@[pos as int + 1] == 62),
            j as int == (if is_redirect {
                spec_skip_ws(input@, pos as int + 2)
            } else {
                pos as int
            }),
            match spec_quals_more(input@, j2 as int) {
                None => spec_quals_more(input@, q0) is None,
                Some((fj, rest)) => spec_quals_more(input@, q0) == Some(
                    (fj, names@.map_values(|m: String| m@).drop_first() + rest),
                ),
            },
            spec_quals_more(input@, q0) matches Some((fj, rest)) ==> names@.map_values(
                |m: String| m@,
            )[0] == first@,
            names@[0] == first,
        decreases input@.len() - j2,
    {
        proof {
            lemma_skip_ws_bounds(input@, j2 as int + 2);
        }
        let j3 = skip_ws(input, j2 + 2);
        let (j4, more) = match identifier(input, j3) {
            None => {
                proof {
                    assert(spec_quals_more(input@, j2 as int) is None);
                    assert(spec_quals_more(input@, q0) is None);
                    assert(spec_quals(input@, j as int) is None);
                    assert(spec_target(input@, pos as int) is None);
                }
                return None;
            },
            Some(x) => x,
        };
        let ghost old_names = names@;
        names.push(more);
        proof {
            assert(names@.map_values(|m: String| m@).drop_first() =~= old_names.map_values(
                |m: String| m@,
            ).drop_first().push(more@));
            assert(spec_quals_more(input@, j2 as int) matches Some((fj, rest)) ==> rest == seq![
                more@,
            ] + spec_quals_more(input@, j4 as int)->Some_0.1 && fj == spec_quals_more(
                input@,
                j4 as int,
            )->Some_0.0);
            assert(spec_quals_more(input@, j2 as int) is None <==> spec_quals_more(
                input@,
                j4 as int,
            ) is None);
            assert(spec_quals_more(input@, j2 as int) matches Some((fj, rest))
                ==> old_names.map_values(|m: String| m@).drop_first() + rest
                =~= names@.map_values(|m: String| m@).drop_first() + spec_quals_more(
                input@,
                j4 as int,
            )->Some_0.1);
        }
        j2 = j4;
    }
    proof {
        assert(spec_quals_more(input@, j2 as int) == Some((j2 as int, Seq::<Seq<char>>::empty())));
        assert(names@.map_values(|m: String| m@).drop_first() + Seq::<Seq<char>>::empty()
            =~= names@.map_values(|m: String| m@).drop_first());
        assert(seq![first@] + names@.map_values(|m: String| m@).drop_first() =~= names@.map_values(
            |m: String| m@,
        ));
        assert(spec_quals(input@, j as int) == Some(
            (j2 as int, names@.map_values(|m: String| m@)),
        ));
    }
    let ghost all = names@.map_values(|m: String| m@);
    let name = match names.pop() {
        None => {
            return None;
        },
        Some(x) => x,
    };
    proof {
        assert(names@.map_values(|m: String| m@) =~= all.drop_last());
        assert(all.last() == name@);
    }
    Some((j2, is_redirect, names, name))
}


/// The indented query-parameter lines at a position, while each is followed
/// by line endings that make progress.
pub open spec fn spec_qp_list(s: Seq<u8>, pos: int, level: int) -> (int, Seq<ParamV>)
    decreases s.len() - pos,
{
    if pos < 0 || pos > s.len() {
        (pos, Seq::empty())
    } else {
        match spec_query_parameter(s, pos, level) {
            None => (pos, Seq::empty()),
            Some((j5, p)) => match spec_line_endings(s, j5) {
                None => (pos, Seq::empty()),
                Some(j6) => if j6 <= pos || j6 > s.len() {
                    (pos, Seq::empty())
                } else {
                    let r = spec_qp_list(s, j6, level);
                    (r.0, seq![p] + r.1)
                },
            },
        }
    }
}

/// An indented resource line at a position, with its query-parameter lines.
pub open spec fn spec_resource(s: Seq<u8>, pos: int, level: int) -> Option<(int, ResourceV)> {
    match spec_indentation(s, pos, level) {
        None => None,
        Some(j0) => match spec_method(s, j0) {
            None => None,
            Some((j1, m)) => match spec_expect(s, j1, 32) {
                None => None,
                Some(j2) => {
                    let j2b = spec_skip_ws(s, j2);
                    match spec_target(s, j2b) {
                        None => None,
                        Some((j3, red, ms, nm)) => match spec_line_endings(s, j3) {
                            None => None,
                            Some(j4) => if level >= usize::MAX {
                                Some(
                                    (
                                        j4,
                                        ResourceV {
                                            method: m,
                                            modules: ms,
                                            name: nm,
                                            is_redirect: red,
                                            query_parameters: Seq::empty(),
                                        },
                                    ),
                                )
                            } else {
                                let ql = spec_qp_list(s, j4, level + 1);
                                Some(
                                    (
                                        ql.0,
                                        ResourceV {
                                            method: m,
                                            modules: ms,
                                            name: nm,
                                            is_redirect: red,
                                            query_parameters: ql.1,
                                        },
                                    ),
                                )
                            },
                        },
                    }
                },
            },
        },
    }
}

/// The resource lines at a position, while each makes progress.
pub open spec fn spec_resource_list(s: Seq<u8>, pos: int, level: int) -> (int, Seq<ResourceV>)
    decreases s.len() - pos,
{
    if pos < 0 || pos > s.len() {
        (pos, Seq::empty())
    } else {
        match spec_resource(s, pos, level) {
            None => (pos, Seq::empty()),
            Some((j4, r)) => if j4 <= pos || j4 > s.len() {
                (pos, Seq::empty())
            } else {
                let rest = spec_resource_list(s, j4, level);
                (rest.0, seq![r] + rest.1)
            },
        }
    }
}

/// An indented nested block at a position: a path segment line, then its
/// routes one level deeper.
pub open spec fn spec_nested_routes(s: Seq<u8>, pos: int, level: int) -> Option<
    (int, NestedRoutesV),
>
    decreases s.len() - pos, 0int,
{
    match spec_path_segment(s, pos, level) {
        None => None,
        Some((j1, seg)) => match spec_line_endings(s, j1) {
            None => None,
            Some(j2) => if level >= usize::MAX || j2 <= pos || j2 > s.len() {
                None
            } else {
                match spec_routes(s, j2, level + 1) {
                    None => None,
                    Some((j3, rv)) => if j3 <= pos {
                        None
                    } else {
                        Some((j3, NestedRoutesV { path_segment: seg, routes: rv }))
                    },
                }
            },
        },
    }
}

/// The nested blocks at a position, while each makes progress.
pub open spec fn spec_nested_list(s: Seq<u8>, pos: int, level: int) -> (int, Seq<NestedRoutesV>)
    decreases s.len() - pos, 1int,
{
    if pos < 0 || pos > s.len() {
        (pos, Seq::empty())
    } else {
        match spec_nested_routes(s, pos, level) {
            None => (pos, Seq::empty()),
            Some((j8, nr)) => if j8 <= pos || j8 > s.len() {
                (pos, Seq::empty())
            } else {
                let rest = spec_nested_list(s, j8, level);
                (rest.0, seq![nr] + rest.1)
            },
        }
    }
}

/// An indented block at a position: query-parameter lines, resources, then
/// nested blocks; at least one resource or nested block.
pub open spec fn spec_routes(s: Seq<u8>, pos: int, level: int) -> Option<(int, RoutesV)>
    decreases s.len() - pos, 2int,
{
    if pos < 0 || pos > s.len() {
        None
    } else {
        let ql = spec_qp_list(s, pos, level);
        let rl = spec_resource_list(s, ql.0, level);
        let j5 = if rl.1.len() > 0 {
            match spec_line_endings(s, rl.0) {
                None => rl.0,
                Some(j6) => j6,
            }
        } else {
            rl.0
        };
        if j5 < pos || j5 > s.len() {
            None
        } else {
            let nl = spec_nested_list(s, j5, level);
            if rl.1.len() == 0 && nl.1.len() == 0 {
                None
            } else if nl.1.len() == 0 {
                Some(
                    (
                        rl.0,
                        RoutesV { resources: rl.1, routes: Seq::empty(), query_parameters: ql.1 },
                    ),
                )
            } else {
                Some((nl.0, RoutesV { resources: rl.1, routes: nl.1, query_parameters: ql.1 }))
            }
        }
    }
}

/// The end of the line at a position: the first newline or carriage return
/// at or after it.
pub open spec fn spec_line_to_end(s: Seq<u8>, pos: int) -> int
    decreases s.len() - pos,
{
    if 0 <= pos < s.len() && s[pos] != 10 && s[pos] != 13 {
        spec_line_to_end(s, pos + 1)
    } else {
        pos
    }
}

/// The line scan stays within the input.
pub proof fn lemma_line_to_end_bounds(s: Seq<u8>, pos: int)
    requires
        0 <= pos <= s.len(),
    ensures
        pos <= spec_line_to_end(s, pos) <= s.len(),
    decreases s.len() - pos,
{
    if 0 <= pos < s.len() && s[pos] != 10 && s[pos] != 13 {
        lemma_line_to_end_bounds(s, pos + 1);
    }
}

/// A header line at a position: any line not starting the route tree,
/// taken verbatim, with its line endings.
pub open spec fn spec_header(s: Seq<u8>, pos: int) -> Option<(int, Seq<char>)> {
    if 0 <= pos < s.len() && s[pos] == 47 {
        None
    } else {
        let j = spec_line_to_end(s, pos);
        match spec_line_endings(s, j) {
            None => None,
            Some(j2) => if vstd::utf8::valid_utf8(s.subrange(pos, j)) {
                Some((j2, vstd::utf8::decode_utf8(s.subrange(pos, j))))
            } else {
                None
            },
        }
    }
}

/// The header lines at a position, while each makes progress, keeping the
/// non-empty ones.
pub open spec fn spec_headers_list(s: Seq<u8>, pos: int) -> (int, Seq<Seq<char>>)
    decreases s.len() - pos,
{
    if pos < 0 || pos > s.len() {
        (pos, Seq::empty())
    } else {
        match spec_header(s, pos) {
            None => (pos, Seq::empty()),
            Some((j1, h)) => if j1 <= pos || j1 > s.len() {
                (pos, Seq::empty())
            } else {
                let rest = spec_headers_list(s, j1);
                (rest.0, if h.len() != 0 {
                    seq![h] + rest.1
                } else {
                    rest.1
                })
            },
        }
    }
}

/// A whole route file: header lines, the `/` line, and the route tree at
/// level one, consuming all input.
pub open spec fn spec_route_config(s: Seq<u8>) -> Option<RouteConfigV> {
    let hl = spec_headers_list(s, 0);
    let j = match spec_line_endings(s, hl.0) {
        None => hl.0,
        Some(j1) => j1,
    };
    match spec_expect(s, j, 47) {
        None => None,
        Some(j2) => match spec_line_endings(s, j2) {
            None => None,
            Some(j3) => match spec_routes(s, j3, 1) {
                None => None,
                Some((j4, rv)) => {
                    let j5 = match spec_line_endings(s, j4) {
                        None => j4,
                        Some(x) => x,
                    };
                    if j5 == s.len() {
                        Some(RouteConfigV { headers: hl.1, routes: rv })
                    } else {
                        None
                    }
                },
            },
        },
    }
}

/// An indented resource line with its indented query-parameter lines.
pub fn resource(input: &[u8], pos: usize, level: usize) -> (r: Option<(usize, Resource)>)
    requires
        pos <= input@.len(),
    ensures
        r matches Some(p) ==> pos < p.0 <= input@.len(),
        match r {
            None => spec_resource(input@, pos as int, level as int) is None,
            Some((j, v)) => spec_resource(input@, pos as int, level as int) == Some(
                (j as int, v@),
            ),
        },
{
    let j0 = match indentation(input, pos, level) {
        None => {
            return None;
        },
        Some(j) => j,
    };
    let (j1, m) = match method(input, j0) {
        None => {
            return None;
        },
        Some(x) => x,
    };
    let j2 = match expect(input, j1, 32) {
        None => {
            return None;
        },
        Some(j) => j,
    };
    let j2b = skip_ws(input, j2);
    let (j3, is_redirect, modules, name) = match target(input, j2b) {
        None => {
            return None;
        },
        Some(x) => x,
    };
    let mut j4 = match line_endings(input, j3) {
        None => {
            return None;
        },
        Some(j) => j,
    };
    let mut query_parameters: Vec<Param> = Vec::new();
    if level == usize::MAX {
        proof {
            assert(query_parameters@.map_values(|p: Param| p@) =~= Seq::<ParamV>::empty());
        }
        return Some((j4, Resource { method: m, modules, name, is_redirect, query_parameters }));
    }
    let ghost jq0 = j4 as int;
    proof {
        assert(query_parameters@.map_values(|p: Param| p@) =~= Seq::<ParamV>::empty());
        match spec_qp_list(input@, jq0, level as int + 1) {
            (fj, rest) => {
                assert(Seq::<ParamV>::empty() + rest =~= rest);
            },
        }
    }
    loop
        invariant
            j4 <= input@.len(),
            pos < j4,
            level < usize::MAX,
            spec_qp_list(input@, jq0, level as int + 1).0 == spec_qp_list(
                input@,
                j4 as int,
                level as int + 1,
            ).0,
            spec_qp_list(input@, jq0, level as int + 1).1 == query_parameters@.map_values(
                |p: Param| p@,
            ) + spec_qp_list(input@, j4 as int, level as int + 1).1,
        ensures
            j4 <= input@.len(),
            pos < j4,
            spec_qp_list(input@, jq0, level as int + 1).0 == j4 as int,
            spec_qp_list(input@, jq0, level as int + 1).1 == query_parameters@.map_values(
                |p: Param| p@,
            ),
        decreases input@.len() - j4,
    {
        match query_parameter(input, j4, level + 1) {
            None => {
                proof {
                    assert(spec_qp_list(input@, j4 as int, level as int + 1) == (
                        j4 as int,
                        Seq::<ParamV>::empty(),
                    ));
                    assert(query_parameters@.map_values(|p: Param| p@) + Seq::<ParamV>::empty()
                        =~= query_parameters@.map_values(|p: Param| p@));
                }
                break;
            },
            Some((j5, p)) => {
                match line_endings(input, j5) {
                    None => {
                        proof {
                            assert(spec_qp_list(input@, j4 as int, level as int + 1) == (
                                j4 as int,
                                Seq::<ParamV>::empty(),
                            ));
                            assert(query_parameters@.map_values(|p: Param| p@)
                                + Seq::<ParamV>::empty() =~= query_parameters@.map_values(
                                |p: Param| p@,
                            ));
                        }
                        break;
                    },
                    Some(j6) => {
                        if j6 <= j4 {
                            proof {
                                assert(spec_qp_list(input@, j4 as int, level as int + 1) == (
                                    j4 as int,
                                    Seq::<ParamV>::empty(),
                                ));
                                assert(query_parameters@.map_values(|p: Param| p@)
                                    + Seq::<ParamV>::empty() =~= query_parameters@.map_values(
                                    |p: Param| p@,
                                ));
                            }
                            break;
                        }
                        let ghost oldq = query_parameters@;
                        query_parameters.push(p);
                        proof {
                            assert(spec_qp_list(input@, j4 as int, level as int + 1).1 == seq![p@]
                                + spec_qp_list(input@, j6 as int, level as int + 1).1);
                            assert(query_parameters@.map_values(|p2: Param| p2@) =~= oldq
                                .map_values(|p2: Param| p2@).push(p@));
                            assert(oldq.map_values(|p2: Param| p2@) + (seq![p@] + spec_qp_list(
                                input@,
                                j6 as int,
                                level as int + 1,
                            ).1) =~= query_parameters@.map_values(|p2: Param| p2@) + spec_qp_list(
                                input@,
                                j6 as int,
                                level as int + 1,
                            ).1);
                        }
                        j4 = j6;
                    },
                }
            },
        }
    }
    proof {
        assert(spec_resource(input@, pos as int, level as int) == Some(
            (
                j4 as int,
                ResourceV {
                    method: m,
                    modules: modules@.map_values(|x: String| x@),
                    name: name@,
                    is_redirect: is_redirect,
                    query_parameters: query_parameters@.map_values(|p: Param| p@),
                },
            ),
        ));
    }
    Some((j4, Resource { method: m, modules, name, is_redirect, query_parameters }))
}

/// An indented nested block: a path segment line, then its routes one level
/// deeper.
pub fn nested_routes(input: &[u8], pos: usize, level: usize) -> (r: Option<(usize, NestedRoutes)>)
    requires
        pos <= input@.len(),
    ensures
        r matches Some(p) ==> pos < p.0 <= input@.len(),
        match r {
            None => spec_nested_routes(input@, pos as int, level as int) is None,
            Some((j, v)) => spec_nested_routes(input@, pos as int, level as int) == Some(
                (j as int, v@),
            ),
        },
    decreases input@.len() - pos, 0int,
{
    let (j1, segment) = match path_segment(input, pos, level) {
        None => {
            return None;
        },
        Some(x) => x,
    };
    let j2 = match line_endings(input, j1) {
        None => {
            return None;
        },
        Some(j) => j,
    };
    if level >= usize::MAX {
        return None;
    }
    let (j3, inner) = match routes(input, j2, level + 1) {
        None => {
            return None;
        },
        Some(x) => x,
    };
    if j3 <= pos {
        return None;
    }
    Some((j3, NestedRoutes { path_segment: segment, routes: inner }))
}

/// An indented block: query-parameter lines, then resources, then nested
/// blocks; at least one resource or nested block.
#[verifier::rlimit(100)]
pub fn routes(input: &[u8], pos: usize, level: usize) -> (r: Option<(usize, Routes)>)
    requires
        pos <= input@.len(),
    ensures
        r matches Some(p) ==> pos <= p.0 <= input@.len(),
        match r {
            None => spec_routes(input@, pos as int, level as int) is None,
            Some((j, v)) => spec_routes(input@, pos as int, level as int) == Some((j as int, v@)),
        },
    decreases input@.len() - pos, 1int,
{
    let mut j = pos;
    let mut query_parameters: Vec<Param> = Vec::new();
    proof {
        assert(query_parameters@.map_values(|p: Param| p@) =~= Seq::<ParamV>::empty());
        match spec_qp_list(input@, pos as int, level as int) {
            (fj, rest) => {
                assert(Seq::<ParamV>::empty() + rest =~= rest);
            },
        }
    }
    loop
        invariant
            pos <= j <= input@.len(),
            spec_qp_list(input@, pos as int, level as int).0 == spec_qp_list(
                input@,
                j as int,
                level as int,
            ).0,
            spec_qp_list(input@, pos as int, level as int).1 == query_parameters@.map_values(
                |p: Param| p@,
            ) + spec_qp_list(input@, j as int, level as int).1,
        ensures
            pos <= j <= input@.len(),
            spec_qp_list(input@, pos as int, level as int).0 == j as int,
            spec_qp_list(input@, pos as int, level as int).1 == query_parameters@.map_values(
                |p: Param| p@,
            ),
        decreases input@.len() - j,
    {
        match query_parameter(input, j, level) {
            None => {
                proof {
                    assert(spec_qp_list(input@, j as int, level as int) == (
                        j as int,
                        Seq::<ParamV>::empty(),
                    ));
                    assert(query_parameters@.map_values(|p: Param| p@) + Seq::<ParamV>::empty()
                        =~= query_parameters@.map_values(|p: Param| p@));
                }
                break;
            },
            Some((j1, p)) => {
                match line_endings(input, j1) {
                    None => {
                        proof {
                            assert(spec_qp_list(input@, j as int, level as int) == (
                                j as int,
                                Seq::<ParamV>::empty(),
                            ));
                            assert(query_parameters@.map_values(|p: Param| p@)
                                + Seq::<ParamV>::empty() =~= query_parameters@.map_values(
                                |p: Param| p@,
                            ));
                        }
                        break;
                    },
                    Some(j2) => {
                        if j2 <= j {
                            proof {
                                assert(spec_qp_list(input@, j as int, level as int) == (
                                    j as int,
                                    Seq::<ParamV>::empty(),
                                ));
                                assert(query_parameters@.map_values(|p: Param| p@)
                                    + Seq::<ParamV>::empty() =~= query_parameters@.map_values(
                                    |p: Param| p@,
                                ));
                            }
                            break;
                        }
                        let ghost oldq = query_parameters@;
                        query_parameters.push(p);
                        proof {
                            assert(spec_qp_list(input@, j as int, level as int).1 == seq![p@]
                                + spec_qp_list(input@, j2 as int, level as int).1);
                            assert(query_parameters@.map_values(|p2: Param| p2@) =~= oldq
                                .map_values(|p2: Param| p2@).push(p@));
                            assert(oldq.map_values(|p2: Param| p2@) + (seq![p@] + spec_qp_list(
                                input@,
                                j2 as int,
                                level as int,
                            ).1) =~= query_parameters@.map_values(|p2: Param| p2@) + spec_qp_list(
                                input@,
                                j2 as int,
                                level as int,
                            ).1);
                        }
                        j = j2;
                    },
                }
            },
        }
    }
    let ghost qlv = spec_qp_list(input@, pos as int, level as int);
    let mut resources: Vec<Resource> = Vec::new();
    let mut j3 = j;
    proof {
        assert(resources@.map_values(|x: Resource| x@) =~= Seq::<ResourceV>::empty());
        match spec_resource_list(input@, j as int, level as int) {
            (fj, rest) => {
                assert(Seq::<ResourceV>::empty() + rest =~= rest);
            },
        }
    }
    loop
        invariant
            pos <= j <= j3 <= input@.len(),
            qlv == spec_qp_list(input@, pos as int, level as int),
            qlv.0 == j as int,
            qlv.1 == query_parameters@.map_values(|p: Param| p@),
            spec_resource_list(input@, j as int, level as int).0 == spec_resource_list(
                input@,
                j3 as int,
                level as int,
            ).0,
            spec_resource_list(input@, j as int, level as int).1 == resources@.map_values(
                |x: Resource| x@,
            ) + spec_resource_list(input@, j3 as int, level as int).1,
        ensures
            pos <= j <= j3 <= input@.len(),
            qlv == spec_qp_list(input@, pos as int, level as int),
            qlv.0 == j as int,
            qlv.1 == query_parameters@.map_values(|p: Param| p@),
            spec_resource_list(input@, j as int, level as int).0 == j3 as int,
            spec_resource_list(input@, j as int, level as int).1 == resources@.map_values(
                |x: Resource| x@,
            ),
        decreases input@.len() - j3,
    {
        match resource(input, j3, level) {
            None => {
                proof {
                    assert(spec_resource_list(input@, j3 as int, level as int) == (
                        j3 as int,
                        Seq::<ResourceV>::empty(),
                    ));
                    assert(resources@.map_values(|x: Resource| x@) + Seq::<ResourceV>::empty()
                        =~= resources@.map_values(|x: Resource| x@));
                }
                break;
            },
            Some((j4, res)) => {
                if j4 <= j3 {
                    proof {
                        assert(spec_resource_list(input@, j3 as int, level as int) == (
                            j3 as int,
                            Seq::<ResourceV>::empty(),
                        ));
                        assert(resources@.map_values(|x: Resource| x@) + Seq::<ResourceV>::empty()
                            =~= resources@.map_values(|x: Resource| x@));
                    }
                    break;
                }
                let ghost oldr = resources@;
                resources.push(res);
                proof {
                    assert(spec_resource_list(input@, j3 as int, level as int).1 == seq![res@]
                        + spec_resource_list(input@, j4 as int, level as int).1);
                    assert(resources@.map_values(|x: Resource| x@) =~= oldr.map_values(
                        |x: Resource| x@,
                    ).push(res@));
                    assert(oldr.map_values(|x: Resource| x@) + (seq![res@] + spec_resource_list(
                        input@,
                        j4 as int,
                        level as int,
                    ).1) =~= resources@.map_values(|x: Resource| x@) + spec_resource_list(
                        input@,
                        j4 as int,
                        level as int,
                    ).1);
                }
                j3 = j4;
            },
        }
    }
    let ghost rlv = spec_resource_list(input@, j as int, level as int);
    let mut j5 = j3;
    if resources.len() > 0 {
        match line_endings(input, j5) {
            None => {},
            Some(j6) => {
                j5 = j6;
            },
        }
    }
    let mut nested: Vec<NestedRoutes> = Vec::new();
    let mut j7 = j5;
    proof {
        assert(spec_nested_list_view(nested@) =~= Seq::<NestedRoutesV>::empty());
        match spec_nested_list(input@, j5 as int, level as int) {
            (fj, rest) => {
                assert(Seq::<NestedRoutesV>::empty() + rest =~= rest);
            },
        }
    }
    loop
        invariant
            pos <= j5 <= j7 <= input@.len(),
            qlv == spec_qp_list(input@, pos as int, level as int),
            qlv.0 == j as int,
            qlv.1 == query_parameters@.map_values(|p: Param| p@),
            rlv == spec_resource_list(input@, j as int, level as int),
            rlv.0 == j3 as int,
            rlv.1 == resources@.map_values(|x: Resource| x@),
            pos <= j <= j3 <= input@.len(),
            j5 as int == (if rlv.1.len() > 0 {
                match spec_line_endings(input@, j3 as int) {
                    None => j3 as int,
                    Some(j6) => j6,
                }
            } else {
                j3 as int
            }),
            resources@.len() == rlv.1.len(),
            spec_nested_list(input@, j5 as int, level as int).0 == spec_nested_list(
                input@,
                j7 as int,
                level as int,
            ).0,
            spec_nested_list(input@, j5 as int, level as int).1 == spec_nested_list_view(nested@)
                + spec_nested_list(input@, j7 as int, level as int).1,
        ensures
            pos <= j5 <= j7 <= input@.len(),
            qlv == spec_qp_list(input@, pos as int, level as int),
            qlv.0 == j as int,
            qlv.1 == query_parameters@.map_values(|p: Param| p@),
            rlv == spec_resource_list(input@, j as int, level as int),
            rlv.0 == j3 as int,
            rlv.1 == resources@.map_values(|x: Resource| x@),
            pos <= j <= j3 <= input@.len(),
            j5 as int == (if rlv.1.len() > 0 {
                match spec_line_endings(input@, j3 as int) {
                    None => j3 as int,
                    Some(j6) => j6,
                }
            } else {
                j3 as int
            }),
            resources@.len() == rlv.1.len(),
            spec_nested_list(input@, j5 as int, level as int).0 == j7 as int,
            spec_nested_list(input@, j5 as int, level as int).1 == spec_nested_list_view(nested@),
        decreases input@.len() - j7,
    {
        match nested_routes(input, j7, level) {
            None => {
                proof {
                    assert(spec_nested_list(input@, j7 as int, level as int) == (
                        j7 as int,
                        Seq::<NestedRoutesV>::empty(),
                    ));
                    assert(spec_nested_list_view(nested@) + Seq::<NestedRoutesV>::empty()
                        =~= spec_nested_list_view(nested@));
                }
                break;
            },
            Some((j8, nr)) => {
                if j8 <= j7 {
                    proof {
                        assert(spec_nested_list(input@, j7 as int, level as int) == (
                            j7 as int,
                            Seq::<NestedRoutesV>::empty(),
                        ));
                        assert(spec_nested_list_view(nested@) + Seq::<NestedRoutesV>::empty()
                            =~= spec_nested_list_view(nested@));
                    }
                    break;
                }
                let ghost oldn = nested@;
                nested.push(nr);
                proof {
                    assert(spec_nested_list(input@, j7 as int, level as int).1 == seq![nr@]
                        + spec_nested_list(input@, j8 as int, level as int).1);
                    assert(nested@.drop_last() =~= oldn);
                    assert(spec_nested_list_view(nested@) =~= spec_nested_list_view(oldn).push(
                        nr@,
                    ));
                    assert(spec_nested_list_view(oldn) + (seq![nr@] + spec_nested_list(
                        input@,
                        j8 as int,
                        level as int,
                    ).1) =~= spec_nested_list_view(nested@) + spec_nested_list(
                        input@,
                        j8 as int,
                        level as int,
                    ).1);
                }
                j7 = j8;
            },
        }
    }
    proof {
        crate::config::lemma_nested_list_view_len(nested@);
    }
    if resources.len() == 0 && nested.len() == 0 {
        return None;
    }
    if nested.len() == 0 {
        // Resource lines alone: any line endings after them stay unread.
        proof {
            assert(spec_routes(input@, pos as int, level as int) == Some(
                (
                    j3 as int,
                    RoutesV {
                        resources: rlv.1,
                        routes: Seq::<NestedRoutesV>::empty(),
                        query_parameters: qlv.1,
                    },
                ),
            ));
            assert(spec_nested_list_view(nested@) =~= Seq::<NestedRoutesV>::empty());
        }
        Some((j3, Routes { resources, routes: nested, query_parameters }))
    } else {
        proof {
            assert(spec_routes(input@, pos as int, level as int) == Some(
                (
                    j7 as int,
                    RoutesV {
                        resources: rlv.1,
                        routes: spec_nested_list_view(nested@),
                        query_parameters: qlv.1,
                    },
                ),
            ));
        }
        Some((j7, Routes { resources, routes: nested, query_parameters }))
    }
}

/// A header line: any line not starting the route tree, taken verbatim.
pub fn header(input: &[u8], pos: usize) -> (r: Option<(usize, Header)>)
    requires
        pos <= input@.len(),
    ensures
        r matches Some(p) ==> pos < p.0 <= input@.len(),
        match r {
            None => spec_header(input@, pos as int) is None,
            Some((j, v)) => spec_header(input@, pos as int) == Some((j as int, v@)),
        },
{
    let n = input.len();
    if pos < n && input[pos] == 47 {
        return None;
    }
    let mut j = pos;
    while j < n
        invariant
            pos <= j <= n,
            n == input@.len(),
            spec_line_to_end(input@, pos as int) == spec_line_to_end(input@, j as int),
        ensures
            pos <= j <= n,
            spec_line_to_end(input@, pos as int) == spec_line_to_end(input@, j as int),
            j == n || input@[j as int] == 10 || input@[j as int] == 13,
        decreases n - j,
    {
        if input[j] == 10 || input[j] == 13 {
            break;
        }
        j = j + 1;
    }
    proof {
        assert(spec_line_to_end(input@, j as int) == j as int);
    }
    let j2 = match line_endings(input, j) {
        None => {
            return None;
        },
        Some(x) => x,
    };
    let bytes = slice_range_vec(input, pos, j);
    match bytes_to_string(bytes) {
        None => None,
        Some(text) => Some((j2, Header { text })),
    }
}

/// A whole route file: header lines, the `/` line, and the route tree at
/// level one, consuming all input.
#[verifier::rlimit(60)]
pub fn route_config(input: &str) -> (r: Option<RouteConfig>)
    ensures
        match r {
            None => spec_route_config(input.spec_bytes()) is None,
            Some(cfg) => spec_route_config(input.spec_bytes()) == Some(cfg@),
        },
{
    let bytes = input.as_bytes();
    let n = bytes.len();
    let mut headers: Vec<Header> = Vec::new();
    let mut j: usize = 0;
    proof {
        assert(headers@.map_values(|h: Header| h@) =~= Seq::<Seq<char>>::empty());
        match spec_headers_list(bytes@, 0) {
            (fj, rest) => {
                assert(Seq::<Seq<char>>::empty() + rest =~= rest);
            },
        }
    }
    loop
        invariant
            j <= bytes@.len(),
            bytes@ == input.spec_bytes(),
            n == bytes@.len(),
            spec_headers_list(bytes@, 0).0 == spec_headers_list(bytes@, j as int).0,
            spec_headers_list(bytes@, 0).1 == headers@.map_values(|h: Header| h@)
                + spec_headers_list(bytes@, j as int).1,
        ensures
            j <= bytes@.len(),
            bytes@ == input.spec_bytes(),
            n == bytes@.len(),
            spec_headers_list(bytes@, 0).0 == j as int,
            spec_headers_list(bytes@, 0).1 == headers@.map_values(|h: Header| h@),
        decreases bytes@.len() - j,
    {
        match header(bytes, j) {
            None => {
                proof {
                    assert(spec_headers_list(bytes@, j as int) == (
                        j as int,
                        Seq::<Seq<char>>::empty(),
                    ));
                    assert(headers@.map_values(|h: Header| h@) + Seq::<Seq<char>>::empty()
                        =~= headers@.map_values(|h: Header| h@));
                }
                break;
            },
            Some((j1, h)) => {
                if j1 <= j {
                    proof {
                        assert(spec_headers_list(bytes@, j as int) == (
                            j as int,
                            Seq::<Seq<char>>::empty(),
                        ));
                        assert(headers@.map_values(|h2: Header| h2@) + Seq::<Seq<char>>::empty()
                            =~= headers@.map_values(|h2: Header| h2@));
                    }
                    break;
                }
                let ghost oldh = headers@;
                let keep = h.text.as_str().unicode_len() != 0;
                if keep {
                    headers.push(h);
                }
                proof {
                    let rest1 = spec_headers_list(bytes@, j1 as int).1;
                    if keep {
                        assert(headers@.map_values(|h2: Header| h2@) =~= oldh.map_values(
                            |h2: Header| h2@,
                        ).push(h@));
                        assert(oldh.map_values(|h2: Header| h2@) + (seq![h@] + rest1)
                            =~= headers@.map_values(|h2: Header| h2@) + rest1);
                    }
                    assert(spec_headers_list(bytes@, 0).1 == headers@.map_values(
                        |h2: Header| h2@,
                    ) + rest1);
                }
                j = j1;
            },
        }
    }
    match line_endings(bytes, j) {
        None => {},
        Some(j1) => {
            j = j1;
        },
    }
    let j2 = match expect(bytes, j, 47) {
        None => {
            return None;
        },
        Some(x) => x,
    };
    let j3 = match line_endings(bytes, j2) {
        None => {
            return None;
        },
        Some(x) => x,
    };
    let (j4, routes) = match crate::parse::routes(bytes, j3, 1) {
        None => {
            return None;
        },
        Some(x) => x,
    };
    let j5 = match line_endings(bytes, j4) {
        None => j4,
        Some(x) => x,
    };
    if j5 != n {
        return None;
    }
    proof {
        assert(spec_route_config(input.spec_bytes()) == Some(
            RouteConfigV {
                headers: headers@.map_values(|h: Header| h@),
                routes: routes@,
            },
        ));
    }
    Some(RouteConfig { headers, routes })
}

} // verus!
