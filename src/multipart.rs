//! Extraction of the `file` part from a multipart payload, on bytes.

use vstd::prelude::*;
use crate::import::{is_utf8, ImportError};

verus! {

/// `m` stands in `s` at position `i`.
pub open spec fn match_at(s: Seq<u8>, m: Seq<u8>, i: int) -> bool {
    0 <= i && i + m.len() <= s.len() && s.subrange(i, i + m.len()) == m
}

/// The first position, from `i` on, where the non-empty `m` stands in `s`.
pub open spec fn first_from(s: Seq<u8>, m: Seq<u8>, i: int) -> Option<int>
    decreases s.len() - i,
{
    if m.len() == 0 || i < 0 || i + m.len() > s.len() {
        None
    } else if match_at(s, m, i) {
        Some(i)
    } else {
        first_from(s, m, i + 1)
    }
}

/// The bytes of `boundary=`.
pub open spec fn boundary_key() -> Seq<u8> {
    seq![98u8, 111, 117, 110, 100, 97, 114, 121, 61]
}

/// The bytes of `multipart/form-data`.
pub open spec fn multipart_key() -> Seq<u8> {
    seq![109u8, 117, 108, 116, 105, 112, 97, 114, 116, 47, 102, 111, 114, 109, 45, 100, 97, 116, 97]
}

/// The bytes of `name="file"`.
pub open spec fn file_field_key() -> Seq<u8> {
    seq![110u8, 97, 109, 101, 61, 34, 102, 105, 108, 101, 34]
}

/// The bytes of a blank line, `\r\n\r\n`.
pub open spec fn blank_line() -> Seq<u8> {
    seq![13u8, 10, 13, 10]
}

/// An ASCII whitespace byte: tab, line feed, vertical tab, form feed, carriage return or space.
pub open spec fn is_ascii_ws(b: u8) -> bool {
    (9 <= b && b <= 13) || b == 32
}

/// `s` without leading ASCII whitespace.
pub open spec fn trim_start_bytes(s: Seq<u8>) -> Seq<u8>
    decreases s.len(),
{
    if s.len() > 0 && is_ascii_ws(s[0]) {
        trim_start_bytes(s.drop_first())
    } else {
        s
    }
}

/// `s` without trailing ASCII whitespace.
pub open spec fn trim_end_bytes(s: Seq<u8>) -> Seq<u8>
    decreases s.len(),
{
    if s.len() > 0 && is_ascii_ws(s.last()) {
        trim_end_bytes(s.drop_last())
    } else {
        s
    }
}

/// The boundary token of a content type: what follows the first `boundary=`,
/// without surrounding ASCII whitespace; empty when there is none.
pub open spec fn boundary_of(ct: Seq<u8>) -> Seq<u8> {
    match first_from(ct, boundary_key(), 0) {
        Some(i) => trim_end_bytes(trim_start_bytes(ct.subrange(i + 9, ct.len() as int))),
        None => Seq::empty(),
    }
}

/// A content type that announces multipart form data with a boundary.
pub open spec fn is_multipart(ct: Seq<u8>) -> bool {
    first_from(ct, multipart_key(), 0) is Some && boundary_of(ct).len() > 0
}

/// The marker that separates parts: `--` and the boundary.
pub open spec fn marker_of(ct: Seq<u8>) -> Seq<u8> {
    seq![45u8, 45u8] + boundary_of(ct)
}

/// `b` without one trailing line terminator (`\r\n`, `\n` or `\r`).
pub open spec fn strip_terminator(b: Seq<u8>) -> Seq<u8> {
    if b.len() >= 2 && b[b.len() - 2] == 13 && b[b.len() - 1] == 10 {
        b.subrange(0, b.len() - 2)
    } else if b.len() >= 1 && (b[b.len() - 1] == 10 || b[b.len() - 1] == 13) {
        b.subrange(0, b.len() - 1)
    } else {
        b
    }
}

/// The content of a part whose headers, before its first blank line, name the
/// `file` field: what follows that blank line, less one line terminator.
pub open spec fn file_content(p: Seq<u8>) -> Option<Seq<u8>> {
    match first_from(p, blank_line(), 0) {
        Some(k) => if first_from(p.subrange(0, k), file_field_key(), 0) is Some {
            Some(strip_terminator(p.subrange(k + 4, p.len() as int)))
        } else {
            None
        },
        None => None,
    }
}

/// The content of the first `file` part of `s` split on marker `m`, looking
/// from a part that begins at `start`, with no marker between `start` and `at`.
pub open spec fn scan(s: Seq<u8>, m: Seq<u8>, start: int, at: int) -> Option<Seq<u8>>
    decreases s.len() - at,
{
    if m.len() == 0 || start < 0 || at < start || at > s.len() {
        None
    } else if at + m.len() > s.len() {
        file_content(s.subrange(start, s.len() as int))
    } else if s.subrange(at, at + m.len()) == m {
        match file_content(s.subrange(start, at)) {
            Some(c) => Some(c),
            None => scan(s, m, at + m.len(), at + m.len()),
        }
    } else {
        scan(s, m, start, at + 1)
    }
}

/// The content of the first part of `body` that carries the `file` field.
pub open spec fn file_part_of(body: Seq<u8>, ct: Seq<u8>) -> Option<Seq<u8>> {
    scan(body, marker_of(ct), 0, 0)
}

/// Whether `m` stands in `s` at position `i`.
fn bytes_at(s: &[u8], m: &Vec<u8>, i: usize) -> (r: bool)
    ensures
        r == match_at(s@, m@, i as int),
{
    if m.len() > s.len() || i > s.len() - m.len() {
        return false;
    }
    let sl = s.len();
    let mut j: usize = 0;
    while j < m.len()
        invariant
            sl == s@.len(),
            j <= m@.len(),
            i + m@.len() <= s@.len(),
            forall|a: int| 0 <= a < j ==> s@[i + a] == m@[a],
        decreases m@.len() - j,
    {
        if s[i + j] != m[j] {
            assert(s@.subrange(i as int, i + m@.len())[j as int] != m@[j as int]);
            return false;
        }
        j += 1;
    }
    assert(s@.subrange(i as int, i + m@.len()) =~= m@);
    true
}

/// The first position, from `from` on, where the non-empty `m` stands in `s`.
fn find_bytes(s: &[u8], m: &Vec<u8>, from: usize) -> (r: Option<usize>)
    ensures
        r matches Some(i) ==> first_from(s@, m@, from as int) == Some(i as int) && match_at(
            s@,
            m@,
            i as int,
        ) && from <= i,
        r is None ==> first_from(s@, m@, from as int) is None,
{
    if m.len() == 0 || m.len() > s.len() {
        return None;
    }
    let sl = s.len();
    let last = s.len() - m.len();
    let mut i: usize = from;
    while i <= last
        invariant
            sl == s@.len(),
            m@.len() > 0,
            last + m@.len() == s@.len(),
            from <= i,
            first_from(s@, m@, from as int) == first_from(s@, m@, i as int),
        decreases last + 1 - i,
    {
        if bytes_at(s, m, i) {
            return Some(i);
        }
        i += 1;
    }
    None
}

/// A copy of the bytes of `s` from `lo` up to, not including, `hi`.
fn copy_bytes(s: &[u8], lo: usize, hi: usize) -> (r: Vec<u8>)
    requires
        lo <= hi <= s@.len(),
    ensures
        r@ == s@.subrange(lo as int, hi as int),
{
    let mut out: Vec<u8> = Vec::new();
    let mut i: usize = lo;
    while i < hi
        invariant
            lo <= i <= hi,
            hi <= s@.len(),
            out@ == s@.subrange(lo as int, i as int),
        decreases hi - i,
    {
        out.push(s[i]);
        assert(out@ =~= s@.subrange(lo as int, i as int + 1));
        i += 1;
    }
    out
}

/// The content of part `p` if it carries the `file` field.
fn part_content(p: &Vec<u8>) -> (r: Option<Vec<u8>>)
    ensures
        r matches Some(c) ==> file_content(p@) == Some(c@),
        r is None ==> file_content(p@) is None,
{
    let blank: Vec<u8> = vec![13u8, 10, 13, 10];
    let key: Vec<u8> = vec![110u8, 97, 109, 101, 61, 34, 102, 105, 108, 101, 34];
    assert(blank@ =~= blank_line());
    assert(key@ =~= file_field_key());
    match find_bytes(p.as_slice(), &blank, 0) {
        Some(k) => {
            let head = copy_bytes(p.as_slice(), 0, k);
            if find_bytes(head.as_slice(), &key, 0).is_some() {
                let n = p.len();
                let end = if n - k >= 6 && p[n - 2] == 13 && p[n - 1] == 10 {
                    n - 2
                } else if n - k >= 5 && (p[n - 1] == 10 || p[n - 1] == 13) {
                    n - 1
                } else {
                    n
                };
                let content = copy_bytes(p.as_slice(), k + 4, end);
                let ghost b = p@.subrange(k + 4, n as int);
                assert(content@ =~= strip_terminator(b));
                Some(content)
            } else {
                None
            }
        },
        None => None,
    }
}

/// Whether `b` is an ASCII whitespace byte.
fn ascii_ws(b: u8) -> (r: bool)
    ensures
        r == is_ascii_ws(b),
{
    (9 <= b && b <= 13) || b == 32
}

/// The boundary token of a content type, empty when there is none.
fn boundary_bytes(ct: &[u8]) -> (r: Vec<u8>)
    ensures
        r@ == boundary_of(ct@),
{
    let key: Vec<u8> = vec![98u8, 111, 117, 110, 100, 97, 114, 121, 61];
    assert(key@ =~= boundary_key());
    match find_bytes(ct, &key, 0) {
        Some(i) => {
            let n = ct.len();
            let start = i + 9;
            let mut lo = start;
            while lo < n && ascii_ws(ct[lo])
                invariant
                    start <= lo <= n,
                    n == ct@.len(),
                    trim_start_bytes(ct@.subrange(start as int, n as int)) == trim_start_bytes(
                        ct@.subrange(lo as int, n as int),
                    ),
                decreases n - lo,
            {
                assert(ct@.subrange(lo as int, n as int).drop_first() =~= ct@.subrange(
                    lo as int + 1,
                    n as int,
                ));
                lo += 1;
            }
            let mut hi = n;
            while hi > lo && ascii_ws(ct[hi - 1])
                invariant
                    lo <= hi <= n,
                    n == ct@.len(),
                    trim_end_bytes(ct@.subrange(lo as int, n as int)) == trim_end_bytes(
                        ct@.subrange(lo as int, hi as int),
                    ),
                decreases hi,
            {
                assert(ct@.subrange(lo as int, hi as int).drop_last() =~= ct@.subrange(
                    lo as int,
                    hi as int - 1,
                ));
                hi -= 1;
            }
            copy_bytes(ct, lo, hi)
        },
        None => Vec::new(),
    }
}

/// Whether a content type announces multipart form data.
fn announces_multipart(ct: &[u8]) -> (r: bool)
    ensures
        r == (first_from(ct@, multipart_key(), 0) is Some),
{
    let key: Vec<u8> = vec![
        109u8, 117, 108, 116, 105, 112, 97, 114, 116, 47, 102, 111, 114, 109, 45, 100, 97, 116, 97,
    ];
    assert(key@ =~= multipart_key());
    find_bytes(ct, &key, 0).is_some()
}

/// The content of the `file` part of a multipart payload: the content type
/// must announce multipart form data with a boundary, the payload must be
/// UTF-8, and some part between boundary markers must name the `file` field.
pub fn extract_file_part(body: &[u8], content_type: &[u8]) -> (r: Result<Vec<u8>, ImportError>)
    ensures
        !is_multipart(content_type@) ==> r == Err::<Vec<u8>, ImportError>(ImportError::NotMultipart),
        is_multipart(content_type@) && !vstd::utf8::valid_utf8(body@) ==> r == Err::<
            Vec<u8>,
            ImportError,
        >(ImportError::InvalidEncoding),
        is_multipart(content_type@) && vstd::utf8::valid_utf8(body@) ==> match file_part_of(
            body@,
            content_type@,
        ) {
            Some(c) => r matches Ok(v) && v@ == c,
            None => r == Err::<Vec<u8>, ImportError>(ImportError::FilePartNotFound),
        },
{
    let boundary = boundary_bytes(content_type);
    if !announces_multipart(content_type) || boundary.len() == 0 {
        return Err(ImportError::NotMultipart);
    }
    if !is_utf8(body) {
        return Err(ImportError::InvalidEncoding);
    }
    let mut m: Vec<u8> = vec![45u8, 45u8];
    let mut j: usize = 0;
    while j < boundary.len()
        invariant
            j <= boundary@.len(),
            m@ == seq![45u8, 45u8] + boundary@.subrange(0, j as int),
        decreases boundary@.len() - j,
    {
        m.push(boundary[j]);
        assert(m@ =~= seq![45u8, 45u8] + boundary@.subrange(0, j as int + 1));
        j += 1;
    }
    assert(boundary@.subrange(0, j as int) =~= boundary@);
    let ghost mv = marker_of(content_type@);
    assert(m@ == mv);
    let n = body.len();
    let ml = m.len();
    if ml > n {
        let part = copy_bytes(body, 0, n);
        return match part_content(&part) {
            Some(c) => Ok(c),
            None => Err(ImportError::FilePartNotFound),
        };
    }
    let mut start: usize = 0;
    let mut at: usize = 0;
    while at <= n - ml
        invariant
            is_multipart(content_type@),
            vstd::utf8::valid_utf8(body@),
            mv == marker_of(content_type@),
            m@ == mv,
            ml == m@.len(),
            ml >= 2,
            ml <= n,
            n == body@.len(),
            start <= at <= n,
            scan(body@, mv, start as int, at as int) == scan(body@, mv, 0, 0),
        decreases n - at,
    {
        if bytes_at(body, &m, at) {
            let part = copy_bytes(body, start, at);
            match part_content(&part) {
                Some(c) => {
                    return Ok(c);
                },
                None => {
                    at = at + ml;
                    start = at;
                },
            }
        } else {
            at = at + 1;
        }
    }
    let part = copy_bytes(body, start, n);
    match part_content(&part) {
        Some(c) => Ok(c),
        None => Err(ImportError::FilePartNotFound),
    }
}

} // verus!
