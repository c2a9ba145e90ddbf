//! HTTP/1.1 request framing on a byte stream, and the fixed response.
//!
//! The responder inspects a request only as far as framing demands: the head
//! must end with an empty line, the request line must be `method SP target SP
//! HTTP/1.1`, and a `content-length` header (compared case-insensitively)
//! gives the body length. Every well-framed request is answered with the same
//! fixed response, so nothing else in the request is looked at.

use vstd::prelude::*;

verus! {

/// A head that has not ended after this many bytes is treated as malformed,
/// so an endless stream of garbage cannot make the responder buffer forever.
pub const MAX_HEAD_BYTES: usize = 8192;

/// How far the bytes read so far get towards one whole request.
#[derive(Clone, Copy, PartialEq, Eq, Structural, Debug)]
pub enum RequestStatus {
    /// More bytes are needed before a whole request is present.
    Incomplete,
    /// The bytes can no longer be the start of a well-formed request.
    Malformed,
    /// A whole request occupies the first `len` bytes; `keep_alive` says
    /// whether the client intends to reuse the connection afterwards.
    Complete { len: usize, keep_alive: bool },
}

// ---------------------------------------------------------------------------
// Byte classes
// ---------------------------------------------------------------------------

/// A token byte, as allowed in a method or a header name.
pub open spec fn is_tchar(b: u8) -> bool {
    ||| b == 33
    ||| 35 <= b && b <= 39
    ||| b == 42
    ||| b == 43
    ||| b == 45
    ||| b == 46
    ||| 48 <= b && b <= 57
    ||| 65 <= b && b <= 90
    ||| 94 <= b && b <= 122
    ||| b == 124
    ||| b == 126
}

/// A visible ASCII byte, as allowed in a request target.
pub open spec fn is_vchar(b: u8) -> bool {
    33 <= b && b <= 126
}

/// An ASCII decimal digit.
pub open spec fn is_digit(b: u8) -> bool {
    48 <= b && b <= 57
}

/// Optional whitespace around a header value: space or horizontal tab.
pub open spec fn is_ows(b: u8) -> bool {
    b == 32 || b == 9
}

/// The byte with an ASCII upper-case letter folded to lower case.
pub open spec fn ascii_lower(b: u8) -> u8 {
    if 65 <= b && b <= 90 {
        (b + 32) as u8
    } else {
        b
    }
}

fn tchar_byte(b: u8) -> (r: bool)
    ensures
        r == is_tchar(b),
{
    b == 33 || (35 <= b && b <= 39) || b == 42 || b == 43 || b == 45 || b == 46
        || (48 <= b && b <= 57) || (65 <= b && b <= 90) || (94 <= b && b <= 122)
        || b == 124 || b == 126
}

fn vchar_byte(b: u8) -> (r: bool)
    ensures
        r == is_vchar(b),
{
    33 <= b && b <= 126
}

fn digit_byte(b: u8) -> (r: bool)
    ensures
        r == is_digit(b),
{
    48 <= b && b <= 57
}

fn lower_byte(b: u8) -> (r: u8)
    ensures
        r == ascii_lower(b),
{
    if 65 <= b && b <= 90 {
        b + 32
    } else {
        b
    }
}

// ---------------------------------------------------------------------------
// Scanning
// ---------------------------------------------------------------------------

/// Index of the first occurrence of `b` in `s[i, end)`, or -1.
pub open spec fn byte_from(s: Seq<u8>, i: int, end: int, b: u8) -> int
    decreases end - i,
{
    if i < 0 || i >= end || end > s.len() {
        -1
    } else if s[i] == b {
        i
    } else {
        byte_from(s, i + 1, end, b)
    }
}

/// Index of the first CRLF at or after `i`, or -1.
pub open spec fn crlf_from(s: Seq<u8>, i: int) -> int
    decreases s.len() - i,
{
    if i < 0 || i + 2 > s.len() {
        -1
    } else if s[i] == 13 && s[i + 1] == 10 {
        i
    } else {
        crlf_from(s, i + 1)
    }
}

/// Index of the first CRLF CRLF (the blank line ending a head) at or after
/// `i`, or -1.
pub open spec fn head_end_from(s: Seq<u8>, i: int) -> int
    decreases s.len() - i,
{
    if i < 0 || i + 4 > s.len() {
        -1
    } else if s[i] == 13 && s[i + 1] == 10 && s[i + 2] == 13 && s[i + 3] == 10 {
        i
    } else {
        head_end_from(s, i + 1)
    }
}

fn find_byte(buf: &Vec<u8>, from: usize, end: usize, b: u8) -> (r: Option<usize>)
    requires
        from <= end,
        end <= buf.len(),
    ensures
        match r {
            Some(k) => from <= k < end && buf@[k as int] == b
                && k == byte_from(buf@, from as int, end as int, b),
            None => byte_from(buf@, from as int, end as int, b) == -1,
        },
{
    let mut i: usize = from;
    while i < end
        invariant
            from <= i <= end <= buf.len(),
            byte_from(buf@, from as int, end as int, b) == byte_from(buf@, i as int, end as int, b),
        decreases end - i,
    {
        if buf[i] == b {
            return Some(i);
        }
        i = i + 1;
    }
    None
}

fn find_crlf(buf: &Vec<u8>, from: usize) -> (r: Option<usize>)
    requires
        from <= buf.len(),
    ensures
        match r {
            Some(j) => from <= j && j + 2 <= buf.len() && j == crlf_from(buf@, from as int),
            None => crlf_from(buf@, from as int) == -1,
        },
{
    let mut i: usize = from;
    while buf.len() >= 2 && i <= buf.len() - 2
        invariant
            from <= i,
            i <= buf.len() || i == from,
            crlf_from(buf@, from as int) == crlf_from(buf@, i as int),
        decreases buf.len() - i,
    {
        if buf[i] == 13 && buf[i + 1] == 10 {
            return Some(i);
        }
        i = i + 1;
    }
    None
}

fn find_head_end(buf: &Vec<u8>, from: usize) -> (r: Option<usize>)
    requires
        from <= buf.len(),
    ensures
        match r {
            Some(h) => from <= h && h + 4 <= buf.len() && h == head_end_from(buf@, from as int),
            None => head_end_from(buf@, from as int) == -1,
        },
{
    let mut i: usize = from;
    while buf.len() >= 4 && i <= buf.len() - 4
        invariant
            from <= i,
            i <= buf.len() || i == from,
            head_end_from(buf@, from as int) == head_end_from(buf@, i as int),
        decreases buf.len() - i,
    {
        if buf[i] == 13 && buf[i + 1] == 10 && buf[i + 2] == 13 && buf[i + 3] == 10 {
            return Some(i);
        }
        i = i + 1;
    }
    None
}

// ---------------------------------------------------------------------------
// The request line
// ---------------------------------------------------------------------------

/// `s[i, i + 8)` spells `HTTP/1.1`.
pub open spec fn is_http11_at(s: Seq<u8>, i: int) -> bool {
    s[i] == 72 && s[i + 1] == 84 && s[i + 2] == 84 && s[i + 3] == 80 && s[i + 4] == 47
        && s[i + 5] == 49 && s[i + 6] == 46 && s[i + 7] == 49
}

/// Every byte of `s[i, j)` is a token byte.
pub open spec fn all_tchar(s: Seq<u8>, i: int, j: int) -> bool {
    forall|k: int| i <= k < j ==> is_tchar(s[k])
}

/// Every byte of `s[i, j)` is visible ASCII.
pub open spec fn all_vchar(s: Seq<u8>, i: int, j: int) -> bool {
    forall|k: int| i <= k < j ==> is_vchar(s[k])
}

/// Every byte of `s[i, j)` is a decimal digit.
pub open spec fn all_digits(s: Seq<u8>, i: int, j: int) -> bool {
    forall|k: int| i <= k < j ==> is_digit(s[k])
}

/// The request line `s[0, fl)` is `method SP target SP HTTP/1.1`, with a
/// non-empty token method and a non-empty visible-ASCII target.
pub open spec fn valid_request_line(s: Seq<u8>, fl: int) -> bool {
    let sp1 = byte_from(s, 0, fl, 32);
    let sp2 = byte_from(s, sp1 + 1, fl, 32);
    &&& 0 < sp1
    &&& all_tchar(s, 0, sp1)
    &&& sp1 + 1 < sp2
    &&& all_vchar(s, sp1 + 1, sp2)
    &&& sp2 + 9 == fl
    &&& is_http11_at(s, sp2 + 1)
}

fn range_all_tchar(buf: &Vec<u8>, i: usize, j: usize) -> (r: bool)
    requires
        i <= j <= buf.len(),
    ensures
        r == all_tchar(buf@, i as int, j as int),
{
    let mut k: usize = i;
    while k < j
        invariant
            i <= k <= j <= buf.len(),
            forall|m: int| i <= m < k ==> is_tchar(buf@[m]),
        decreases j - k,
    {
        if !tchar_byte(buf[k]) {
            assert(!all_tchar(buf@, i as int, j as int));
            return false;
        }
        k = k + 1;
    }
    true
}

fn range_all_vchar(buf: &Vec<u8>, i: usize, j: usize) -> (r: bool)
    requires
        i <= j <= buf.len(),
    ensures
        r == all_vchar(buf@, i as int, j as int),
{
    let mut k: usize = i;
    while k < j
        invariant
            i <= k <= j <= buf.len(),
            forall|m: int| i <= m < k ==> is_vchar(buf@[m]),
        decreases j - k,
    {
        if !vchar_byte(buf[k]) {
            assert(!all_vchar(buf@, i as int, j as int));
            return false;
        }
        k = k + 1;
    }
    true
}

fn range_all_digits(buf: &Vec<u8>, i: usize, j: usize) -> (r: bool)
    requires
        i <= j <= buf.len(),
    ensures
        r == all_digits(buf@, i as int, j as int),
{
    let mut k: usize = i;
    while k < j
        invariant
            i <= k <= j <= buf.len(),
            forall|m: int| i <= m < k ==> is_digit(buf@[m]),
        decreases j - k,
    {
        if !digit_byte(buf[k]) {
            assert(!all_digits(buf@, i as int, j as int));
            return false;
        }
        k = k + 1;
    }
    true
}

fn request_line_ok(buf: &Vec<u8>, fl: usize) -> (r: bool)
    requires
        fl <= buf.len(),
    ensures
        r == valid_request_line(buf@, fl as int),
{
    match find_byte(buf, 0, fl, 32) {
        None => false,
        Some(sp1) => {
            if sp1 == 0 {
                return false;
            }
            if !range_all_tchar(buf, 0, sp1) {
                return false;
            }
            match find_byte(buf, sp1 + 1, fl, 32) {
                None => false,
                Some(sp2) => {
                    if sp2 == sp1 + 1 {
                        return false;
                    }
                    if !range_all_vchar(buf, sp1 + 1, sp2) {
                        return false;
                    }
                    if fl - sp2 != 9 {
                        return false;
                    }
                    buf[sp2 + 1] == 72 && buf[sp2 + 2] == 84 && buf[sp2 + 3] == 84
                        && buf[sp2 + 4] == 80 && buf[sp2 + 5] == 47 && buf[sp2 + 6] == 49
                        && buf[sp2 + 7] == 46 && buf[sp2 + 8] == 49
                }
            }
        }
    }
}

// ---------------------------------------------------------------------------
// Header lines
// ---------------------------------------------------------------------------

/// First index in `s[i, j)` holding something other than optional
/// whitespace (space or tab), or `j`.
pub open spec fn ows_start(s: Seq<u8>, i: int, j: int) -> int
    decreases j - i,
{
    if i < 0 || i >= j {
        j
    } else if is_ows(s[i]) {
        ows_start(s, i + 1, j)
    } else {
        i
    }
}

/// One past the last index in `s[i, j)` holding something other than
/// optional whitespace, or `i`.
pub open spec fn ows_end(s: Seq<u8>, i: int, j: int) -> int
    decreases j - i,
{
    if j <= i {
        i
    } else if is_ows(s[j - 1]) {
        ows_end(s, i, j - 1)
    } else {
        j
    }
}

/// The decimal value of the digits `s[i, j)`, most significant first.
pub open spec fn dec_val(s: Seq<u8>, i: int, j: int) -> int
    decreases j - i,
{
    if j <= i {
        0
    } else {
        dec_val(s, i, j - 1) * 10 + (s[j - 1] - 48)
    }
}

/// `s[i, k)` spells `content-length`, compared case-insensitively.
pub open spec fn is_content_length_name(s: Seq<u8>, i: int, k: int) -> bool {
    &&& k - i == 14
    &&& ascii_lower(s[i]) == 99
    &&& ascii_lower(s[i + 1]) == 111
    &&& ascii_lower(s[i + 2]) == 110
    &&& ascii_lower(s[i + 3]) == 116
    &&& ascii_lower(s[i + 4]) == 101
    &&& ascii_lower(s[i + 5]) == 110
    &&& ascii_lower(s[i + 6]) == 116
    &&& s[i + 7] == 45
    &&& ascii_lower(s[i + 8]) == 108
    &&& ascii_lower(s[i + 9]) == 101
    &&& ascii_lower(s[i + 10]) == 110
    &&& ascii_lower(s[i + 11]) == 103
    &&& ascii_lower(s[i + 12]) == 116
    &&& ascii_lower(s[i + 13]) == 104
}

/// `s[i, k)` spells `connection`, compared case-insensitively.
pub open spec fn is_connection_name(s: Seq<u8>, i: int, k: int) -> bool {
    &&& k - i == 10
    &&& ascii_lower(s[i]) == 99
    &&& ascii_lower(s[i + 1]) == 111
    &&& ascii_lower(s[i + 2]) == 110
    &&& ascii_lower(s[i + 3]) == 110
    &&& ascii_lower(s[i + 4]) == 101
    &&& ascii_lower(s[i + 5]) == 99
    &&& ascii_lower(s[i + 6]) == 116
    &&& ascii_lower(s[i + 7]) == 105
    &&& ascii_lower(s[i + 8]) == 111
    &&& ascii_lower(s[i + 9]) == 110
}

/// `s[a, b)` spells `close`, compared case-insensitively.
pub open spec fn is_close_value(s: Seq<u8>, a: int, b: int) -> bool {
    &&& b - a == 5
    &&& ascii_lower(s[a]) == 99
    &&& ascii_lower(s[a + 1]) == 108
    &&& ascii_lower(s[a + 2]) == 111
    &&& ascii_lower(s[a + 3]) == 115
    &&& ascii_lower(s[a + 4]) == 101
}

/// The header line `s[i, j)` names `content-length`.
pub open spec fn line_names_content_length(s: Seq<u8>, i: int, j: int) -> bool {
    let k = byte_from(s, i, j, 58);
    k >= 0 && is_content_length_name(s, i, k)
}

/// Start of the trimmed value of the header line `s[i, j)`.
pub open spec fn line_value_start(s: Seq<u8>, i: int, j: int) -> int {
    ows_start(s, byte_from(s, i, j, 58) + 1, j)
}

/// End of the trimmed value of the header line `s[i, j)`.
pub open spec fn line_value_end(s: Seq<u8>, i: int, j: int) -> int {
    ows_end(s, byte_from(s, i, j, 58) + 1, j)
}

/// The trimmed value of the header line `s[i, j)` is one or more digits.
pub open spec fn line_content_length_ok(s: Seq<u8>, i: int, j: int) -> bool {
    let a = line_value_start(s, i, j);
    let b = line_value_end(s, i, j);
    a < b && all_digits(s, a, b)
}

/// The header line `s[i, j)` says `connection: close`.
pub open spec fn line_connection_close(s: Seq<u8>, i: int, j: int) -> bool {
    let k = byte_from(s, i, j, 58);
    k >= 0 && is_connection_name(s, i, k)
        && is_close_value(s, line_value_start(s, i, j), line_value_end(s, i, j))
}

/// What the header lines say about framing.
pub ghost struct HeaderFields {
    /// The value of the first `content-length` line, when that line is
    /// well formed.
    pub content_length: Option<int>,
    /// The first `content-length` line has a value that is not plain digits.
    pub bad_content_length: bool,
    /// Some line says `connection: close`.
    pub connection_close: bool,
}

/// Walk the header lines from `i` up to the blank line at `he`. The first
/// `content-length` line decides the body length; any `connection: close`
/// line ends keep-alive.
pub open spec fn scan_headers(s: Seq<u8>, i: int, he: int) -> HeaderFields
    decreases he + 2 - i,
{
    if i < 0 || i >= he + 2 {
        HeaderFields { content_length: None, bad_content_length: false, connection_close: false }
    } else {
        let j = crlf_from(s, i);
        if j < i || j > he {
            HeaderFields { content_length: None, bad_content_length: false, connection_close: false }
        } else {
            let rest = scan_headers(s, j + 2, he);
            let cl_here = line_names_content_length(s, i, j);
            HeaderFields {
                content_length: if cl_here {
                    if line_content_length_ok(s, i, j) {
                        Some(dec_val(s, line_value_start(s, i, j), line_value_end(s, i, j)))
                    } else {
                        None
                    }
                } else {
                    rest.content_length
                },
                bad_content_length: if cl_here {
                    !line_content_length_ok(s, i, j)
                } else {
                    rest.bad_content_length
                },
                connection_close: line_connection_close(s, i, j) || rest.connection_close,
            }
        }
    }
}

// ---------------------------------------------------------------------------
// Framing: the whole request
// ---------------------------------------------------------------------------

/// The framing status of the bytes `s`: whether they hold a whole well-formed
/// request, are still short of one, or can no longer become one. The head must
/// end within `MAX_HEAD_BYTES`; a whole request is the head plus
/// `content-length` body bytes; keep-alive holds unless a line says
/// `connection: close`. A body so long that the request cannot fit in memory
/// counts as malformed.
pub open spec fn request_status_of(s: Seq<u8>) -> RequestStatus {
    let fl = crlf_from(s, 0);
    if fl < 0 {
        if s.len() > MAX_HEAD_BYTES {
            RequestStatus::Malformed
        } else {
            RequestStatus::Incomplete
        }
    } else if !valid_request_line(s, fl) {
        RequestStatus::Malformed
    } else {
        let he = head_end_from(s, 0);
        if he < 0 {
            if s.len() > MAX_HEAD_BYTES {
                RequestStatus::Malformed
            } else {
                RequestStatus::Incomplete
            }
        } else {
            let h = scan_headers(s, fl + 2, he);
            if h.bad_content_length {
                RequestStatus::Malformed
            } else {
                let n = match h.content_length {
                    Some(v) => v,
                    None => 0,
                };
                if he + 4 + n > usize::MAX {
                    RequestStatus::Malformed
                } else if s.len() >= he + 4 + n {
                    RequestStatus::Complete {
                        len: (he + 4 + n) as usize,
                        keep_alive: !h.connection_close,
                    }
                } else {
                    RequestStatus::Incomplete
                }
            }
        }
    }
}

proof fn lemma_scan_headers_cl_nonneg(s: Seq<u8>, i: int, he: int)
    ensures
        scan_headers(s, i, he).content_length matches Some(v) ==> v >= 0,
    decreases he + 2 - i,
{
    if !(i < 0 || i >= he + 2) {
        let j = crlf_from(s, i);
        if !(j < i || j > he) {
            lemma_scan_headers_cl_nonneg(s, j + 2, he);
            if line_names_content_length(s, i, j) && line_content_length_ok(s, i, j) {
                lemma_dec_val_nonneg(s, line_value_start(s, i, j), line_value_end(s, i, j));
            }
        }
    }
}

proof fn lemma_byte_from_found(s: Seq<u8>, i: int, end: int, b: u8, p: int)
    requires
        0 <= i <= p < end <= s.len(),
        s[p] == b,
        forall|q: int| i <= q < p ==> s[q] != b,
    ensures
        byte_from(s, i, end, b) == p,
    decreases p - i,
{
    if i < p {
        lemma_byte_from_found(s, i + 1, end, b, p);
    }
}

proof fn lemma_crlf_from_found(s: Seq<u8>, i: int, p: int)
    requires
        0 <= i <= p,
        p + 2 <= s.len(),
        s[p] == 13,
        s[p + 1] == 10,
        forall|q: int| i <= q < p ==> s[q] != 13,
    ensures
        crlf_from(s, i) == p,
    decreases p - i,
{
    if i < p {
        lemma_crlf_from_found(s, i + 1, p);
    }
}

proof fn lemma_head_end_found(s: Seq<u8>, i: int, p: int)
    requires
        0 <= i <= p,
        p + 4 <= s.len(),
        s[p] == 13,
        s[p + 1] == 10,
        s[p + 2] == 13,
        s[p + 3] == 10,
        forall|q: int| i <= q < p ==> s[q] != 13,
    ensures
        head_end_from(s, i) == p,
    decreases p - i,
{
    if i < p {
        lemma_head_end_found(s, i + 1, p);
    }
}

/// Law: a GET for any target at all, with no headers, is one complete
/// request spanning all its bytes, to be answered and kept alive — the
/// responder never minds the path. The target may be any non-empty run of
/// visible ASCII; the 17 other bytes are `GET `, ` HTTP/1.1`, and the two
/// line ends.
pub proof fn lemma_any_get_is_served(target: Seq<u8>)
    requires
        1 <= target.len(),
        target.len() + 17 <= usize::MAX,
        forall|k: int| 0 <= k < target.len() ==> is_vchar(target[k]),
    ensures
        ({
            let r = seq![71u8, 69, 84, 32] + target + seq![
                32u8,
                72,
                84,
                84,
                80,
                47,
                49,
                46,
                49,
                13,
                10,
                13,
                10,
            ];
            request_status_of(r) == (RequestStatus::Complete {
                len: (target.len() + 17) as usize,
                keep_alive: true,
            })
        }),
{
    let pre = seq![71u8, 69, 84, 32];
    let post = seq![32u8, 72, 84, 84, 80, 47, 49, 46, 49, 13, 10, 13, 10];
    let r = pre + target + post;
    let n = target.len() as int;
    assert(r.len() == n + 17);
    assert forall|q: int| 0 <= q < n + 13 implies r[q] != 13 by {
        if q < 4 {
            assert(r[q] == pre[q]);
        } else if q < 4 + n {
            assert(r[q] == target[q - 4]);
            assert(is_vchar(target[q - 4]));
        } else {
            assert(r[q] == post[q - 4 - n]);
        }
    }
    lemma_crlf_from_found(r, 0, n + 13);
    lemma_head_end_found(r, 0, n + 13);
    assert forall|q: int| 0 <= q < 3 implies r[q] != 32 by {
        assert(r[q] == pre[q]);
    }
    assert(r[3] == pre[3]);
    lemma_byte_from_found(r, 0, n + 13, 32, 3);
    assert forall|q: int| 4 <= q < 4 + n implies r[q] != 32 by {
        assert(r[q] == target[q - 4]);
        assert(is_vchar(target[q - 4]));
    }
    assert(r[4 + n] == post[0]);
    lemma_byte_from_found(r, 4, n + 13, 32, 4 + n);
    assert(all_tchar(r, 0, 3)) by {
        assert(r[0] == pre[0] && r[1] == pre[1] && r[2] == pre[2]);
    }
    assert(all_vchar(r, 4, 4 + n)) by {
        assert forall|k: int| 4 <= k < 4 + n implies is_vchar(r[k]) by {
            assert(r[k] == target[k - 4]);
        }
    }
    assert(is_http11_at(r, n + 5)) by {
        assert(r[n + 5] == post[1] && r[n + 6] == post[2] && r[n + 7] == post[3] && r[n + 8]
            == post[4] && r[n + 9] == post[5] && r[n + 10] == post[6] && r[n + 11] == post[7] && r[n
            + 12] == post[8]);
    }
    assert(valid_request_line(r, n + 13));
    assert(scan_headers(r, n + 15, n + 13) == HeaderFields {
        content_length: None,
        bad_content_length: false,
        connection_close: false,
    });
}

proof fn lemma_crlf_from_props(s: Seq<u8>, i: int)
    requires
        0 <= i,
        crlf_from(s, i) >= 0,
    ensures
        i <= crlf_from(s, i),
        crlf_from(s, i) + 2 <= s.len(),
        s[crlf_from(s, i)] == 13,
        s[crlf_from(s, i) + 1] == 10,
    decreases s.len() - i,
{
    if !(i + 2 > s.len()) && !(s[i] == 13 && s[i + 1] == 10) {
        lemma_crlf_from_props(s, i + 1);
    }
}

proof fn lemma_head_end_from_props(s: Seq<u8>, i: int)
    requires
        0 <= i,
        head_end_from(s, i) >= 0,
    ensures
        i <= head_end_from(s, i),
        head_end_from(s, i) + 4 <= s.len(),
    decreases s.len() - i,
{
    if !(i + 4 > s.len()) && !(s[i] == 13 && s[i + 1] == 10 && s[i + 2] == 13 && s[i + 3] == 10) {
        lemma_head_end_from_props(s, i + 1);
    }
}

proof fn lemma_crlf_from_extend(s: Seq<u8>, t: Seq<u8>, i: int)
    requires
        0 <= i,
        crlf_from(s, i) >= 0,
    ensures
        crlf_from(s + t, i) == crlf_from(s, i),
    decreases s.len() - i,
{
    lemma_crlf_from_props(s, i);
    if s[i] == 13 && s[i + 1] == 10 {
        assert((s + t)[i] == s[i] && (s + t)[i + 1] == s[i + 1]);
    } else {
        lemma_crlf_from_extend(s, t, i + 1);
        assert((s + t)[i] == s[i] && (s + t)[i + 1] == s[i + 1]);
    }
}

proof fn lemma_head_end_from_extend(s: Seq<u8>, t: Seq<u8>, i: int)
    requires
        0 <= i,
        head_end_from(s, i) >= 0,
    ensures
        head_end_from(s + t, i) == head_end_from(s, i),
    decreases s.len() - i,
{
    lemma_head_end_from_props(s, i);
    if s[i] == 13 && s[i + 1] == 10 && s[i + 2] == 13 && s[i + 3] == 10 {
        assert((s + t)[i] == s[i] && (s + t)[i + 1] == s[i + 1] && (s + t)[i + 2] == s[i + 2] && (s
            + t)[i + 3] == s[i + 3]);
    } else {
        lemma_head_end_from_extend(s, t, i + 1);
        assert((s + t)[i] == s[i] && (s + t)[i + 1] == s[i + 1] && (s + t)[i + 2] == s[i + 2] && (s
            + t)[i + 3] == s[i + 3]);
    }
}

proof fn lemma_crlf_from_none(s: Seq<u8>, i: int, p: int)
    requires
        0 <= i <= p,
        p + 2 <= s.len(),
        s[p] == 13,
        s[p + 1] == 10,
    ensures
        0 <= crlf_from(s, i) <= p,
    decreases p - i,
{
    if i < p && !(s[i] == 13 && s[i + 1] == 10) {
        lemma_crlf_from_none(s, i + 1, p);
    }
}

proof fn lemma_byte_from_props(s: Seq<u8>, i: int, end: int, b: u8)
    requires
        byte_from(s, i, end, b) >= 0,
    ensures
        i <= byte_from(s, i, end, b) < end,
        end <= s.len(),
        s[byte_from(s, i, end, b)] == b,
    decreases end - i,
{
    if !(i < 0 || i >= end || end > s.len()) && s[i] != b {
        lemma_byte_from_props(s, i + 1, end, b);
    }
}

proof fn lemma_ows_bounds(s: Seq<u8>, i: int, j: int)
    requires
        0 <= i <= j,
    ensures
        i <= ows_start(s, i, j) <= j,
        i <= ows_end(s, i, j) <= j,
    decreases j - i,
{
    if i < j && (is_ows(s[i]) || is_ows(s[j - 1])) {
        lemma_ows_bounds(s, i + 1, j);
        lemma_ows_bounds(s, i, j - 1);
    }
}

proof fn lemma_byte_from_extend(s: Seq<u8>, t: Seq<u8>, i: int, end: int, b: u8)
    requires
        end <= s.len(),
    ensures
        byte_from(s + t, i, end, b) == byte_from(s, i, end, b),
    decreases end - i,
{
    if !(i < 0 || i >= end) {
        assert((s + t)[i] == s[i]);
        if s[i] != b {
            lemma_byte_from_extend(s, t, i + 1, end, b);
        }
    }
}

proof fn lemma_ows_extend(s: Seq<u8>, t: Seq<u8>, i: int, j: int)
    requires
        0 <= i,
        j <= s.len(),
    ensures
        ows_start(s + t, i, j) == ows_start(s, i, j),
        ows_end(s + t, i, j) == ows_end(s, i, j),
    decreases j - i,
{
    if !(i < 0 || i >= j) {
        assert((s + t)[i] == s[i]);
        assert((s + t)[j - 1] == s[j - 1]);
        if is_ows(s[i]) || is_ows(s[j - 1]) {
            lemma_ows_extend(s, t, i + 1, j);
            lemma_ows_extend(s, t, i, j - 1);
        }
    }
}

proof fn lemma_dec_val_extend(s: Seq<u8>, t: Seq<u8>, i: int, j: int)
    requires
        0 <= i,
        j <= s.len(),
    ensures
        dec_val(s + t, i, j) == dec_val(s, i, j),
    decreases j - i,
{
    if j > i {
        assert((s + t)[j - 1] == s[j - 1]);
        lemma_dec_val_extend(s, t, i, j - 1);
    }
}

proof fn lemma_request_line_extend(s: Seq<u8>, t: Seq<u8>, fl: int)
    requires
        0 <= fl,
        fl <= s.len(),
    ensures
        valid_request_line(s + t, fl) == valid_request_line(s, fl),
{
    lemma_byte_from_extend(s, t, 0, fl, 32);
    let sp1 = byte_from(s, 0, fl, 32);
    if sp1 >= 0 {
        lemma_byte_from_props(s, 0, fl, 32);
        lemma_byte_from_extend(s, t, sp1 + 1, fl, 32);
        let sp2 = byte_from(s, sp1 + 1, fl, 32);
        assert(all_tchar(s + t, 0, sp1) == all_tchar(s, 0, sp1)) by {
            assert(forall|k: int| 0 <= k < sp1 ==> (s + t)[k] == s[k]);
        }
        if sp2 >= 0 {
            lemma_byte_from_props(s, sp1 + 1, fl, 32);
            assert(all_vchar(s + t, sp1 + 1, sp2) == all_vchar(s, sp1 + 1, sp2)) by {
                assert(forall|k: int| sp1 + 1 <= k < sp2 ==> (s + t)[k] == s[k]);
            }
            if sp2 + 9 == fl {
                assert(forall|k: int| sp2 + 1 <= k < fl ==> (s + t)[k] == s[k]);
                assert(is_http11_at(s + t, sp2 + 1) == is_http11_at(s, sp2 + 1));
            }
        }
    }
}

proof fn lemma_scan_headers_extend(s: Seq<u8>, t: Seq<u8>, i: int, he: int)
    requires
        he + 2 <= s.len(),
    ensures
        scan_headers(s + t, i, he) == scan_headers(s, i, he),
    decreases he + 2 - i,
{
    if !(i < 0 || i >= he + 2) {
        let j = crlf_from(s, i);
        let j2 = crlf_from(s + t, i);
        if j < i || j > he {
            // the rest is empty on both sides: a line end within the head
            // region would lie within `s`, so `s` would already show it
            if i <= j2 && j2 <= he {
                lemma_crlf_from_props(s + t, i);
                assert((s + t)[j2] == s[j2] && (s + t)[j2 + 1] == s[j2 + 1]);
                lemma_crlf_from_none(s, i, j2);
                lemma_crlf_from_props(s, i);
                assert(false);
            }
        } else {
            lemma_crlf_from_extend(s, t, i);
            assert(j2 == j);
            lemma_scan_headers_extend(s, t, j + 2, he);
            lemma_byte_from_extend(s, t, i, j, 58);
            let k = byte_from(s, i, j, 58);
            if k >= 0 {
                lemma_byte_from_props(s, i, j, 58);
                assert(forall|m: int| i <= m < j ==> (s + t)[m] == s[m]);
                assert(is_content_length_name(s + t, i, k) == is_content_length_name(s, i, k));
                assert(is_connection_name(s + t, i, k) == is_connection_name(s, i, k));
                lemma_ows_extend(s, t, k + 1, j);
                lemma_ows_bounds(s, k + 1, j);
                let a = ows_start(s, k + 1, j);
                let b = ows_end(s, k + 1, j);
                assert(all_digits(s + t, a, b) == all_digits(s, a, b)) by {
                    assert(forall|m: int| a <= m < b ==> (s + t)[m] == s[m]);
                }
                lemma_dec_val_extend(s, t, a, b);
                assert(is_close_value(s + t, a, b) == is_close_value(s, a, b)) by {
                    assert(forall|m: int| a <= m < b ==> (s + t)[m] == s[m]);
                }
            }
        }
    }
}

/// Law: a request once complete is framed for good — however many bytes the
/// client sends after it, its length, its keep-alive intent, and so its
/// response never change. Requests on a kept-alive connection are therefore
/// answered one by one, each from its own bytes alone.
pub proof fn lemma_complete_request_is_final(s: Seq<u8>, t: Seq<u8>)
    requires
        request_status_of(s) is Complete,
    ensures
        request_status_of(s + t) == request_status_of(s),
{
    let fl = crlf_from(s, 0);
    assert(fl >= 0);
    lemma_crlf_from_props(s, 0);
    lemma_crlf_from_extend(s, t, 0);
    lemma_request_line_extend(s, t, fl);
    assert(valid_request_line(s, fl));
    let he = head_end_from(s, 0);
    assert(he >= 0);
    lemma_head_end_from_props(s, 0);
    lemma_head_end_from_extend(s, t, 0);
    lemma_scan_headers_extend(s, t, fl + 2, he);
    lemma_scan_headers_cl_nonneg(s, fl + 2, he);
}

/// Law: a complete request lies within the bytes present — its length never
/// exceeds the buffer's.
pub proof fn lemma_complete_within_buffer(s: Seq<u8>)
    ensures
        request_status_of(s) matches RequestStatus::Complete { len, .. } ==> len <= s.len(),
{
    let fl = crlf_from(s, 0);
    if fl >= 0 && valid_request_line(s, fl) {
        let he = head_end_from(s, 0);
        if he >= 0 {
            lemma_scan_headers_cl_nonneg(s, fl + 2, he);
            let h = scan_headers(s, fl + 2, he);
            assert(request_status_of(s) matches RequestStatus::Complete { len, .. } ==> len
                <= s.len());
        }
    }
}

proof fn lemma_dec_val_nonneg(s: Seq<u8>, i: int, j: int)
    requires
        all_digits(s, i, j),
    ensures
        dec_val(s, i, j) >= 0,
    decreases j - i,
{
    if j > i {
        lemma_dec_val_nonneg(s, i, j - 1);
    }
}

proof fn lemma_dec_val_grows(s: Seq<u8>, i: int, m: int, j: int)
    requires
        i <= m <= j,
        all_digits(s, i, j),
    ensures
        dec_val(s, i, j) >= dec_val(s, i, m),
    decreases j - m,
{
    if m < j {
        lemma_dec_val_grows(s, i, m, j - 1);
        lemma_dec_val_nonneg(s, i, j - 1);
    }
}

fn skip_ows_forward(buf: &Vec<u8>, i: usize, j: usize) -> (r: usize)
    requires
        i <= j <= buf.len(),
    ensures
        i <= r <= j,
        r == ows_start(buf@, i as int, j as int),
{
    let mut k: usize = i;
    while k < j && (buf[k] == 32 || buf[k] == 9)
        invariant
            i <= k <= j <= buf.len(),
            ows_start(buf@, i as int, j as int) == ows_start(buf@, k as int, j as int),
        decreases j - k,
    {
        k = k + 1;
    }
    k
}

fn skip_ows_backward(buf: &Vec<u8>, i: usize, j: usize) -> (r: usize)
    requires
        i <= j <= buf.len(),
    ensures
        i <= r <= j,
        r == ows_end(buf@, i as int, j as int),
{
    let mut k: usize = j;
    while k > i && (buf[k - 1] == 32 || buf[k - 1] == 9)
        invariant
            i <= k <= j <= buf.len(),
            ows_end(buf@, i as int, j as int) == ows_end(buf@, i as int, k as int),
        decreases k,
    {
        k = k - 1;
    }
    k
}

fn content_length_name_at(buf: &Vec<u8>, i: usize, k: usize) -> (r: bool)
    requires
        i <= k <= buf.len(),
    ensures
        r == is_content_length_name(buf@, i as int, k as int),
{
    if k - i != 14 {
        return false;
    }
    lower_byte(buf[i]) == 99 && lower_byte(buf[i + 1]) == 111 && lower_byte(buf[i + 2]) == 110
        && lower_byte(buf[i + 3]) == 116 && lower_byte(buf[i + 4]) == 101
        && lower_byte(buf[i + 5]) == 110 && lower_byte(buf[i + 6]) == 116 && buf[i + 7] == 45
        && lower_byte(buf[i + 8]) == 108 && lower_byte(buf[i + 9]) == 101
        && lower_byte(buf[i + 10]) == 110 && lower_byte(buf[i + 11]) == 103
        && lower_byte(buf[i + 12]) == 116 && lower_byte(buf[i + 13]) == 104
}

fn connection_name_at(buf: &Vec<u8>, i: usize, k: usize) -> (r: bool)
    requires
        i <= k <= buf.len(),
    ensures
        r == is_connection_name(buf@, i as int, k as int),
{
    if k - i != 10 {
        return false;
    }
    lower_byte(buf[i]) == 99 && lower_byte(buf[i + 1]) == 111 && lower_byte(buf[i + 2]) == 110
        && lower_byte(buf[i + 3]) == 110 && lower_byte(buf[i + 4]) == 101
        && lower_byte(buf[i + 5]) == 99 && lower_byte(buf[i + 6]) == 116
        && lower_byte(buf[i + 7]) == 105 && lower_byte(buf[i + 8]) == 111
        && lower_byte(buf[i + 9]) == 110
}

fn close_value_at(buf: &Vec<u8>, a: usize, b: usize) -> (r: bool)
    requires
        a <= buf.len(),
        b <= buf.len(),
    ensures
        r == is_close_value(buf@, a as int, b as int),
{
    if b < a || b - a != 5 {
        return false;
    }
    lower_byte(buf[a]) == 99 && lower_byte(buf[a + 1]) == 108 && lower_byte(buf[a + 2]) == 111
        && lower_byte(buf[a + 3]) == 115 && lower_byte(buf[a + 4]) == 101
}

fn parse_decimal(buf: &Vec<u8>, a: usize, b: usize) -> (r: Option<usize>)
    requires
        a <= b <= buf.len(),
    ensures
        match r {
            Some(v) => a < b && all_digits(buf@, a as int, b as int)
                && v == dec_val(buf@, a as int, b as int),
            None => b <= a || !all_digits(buf@, a as int, b as int)
                || dec_val(buf@, a as int, b as int) > usize::MAX,
        },
{
    if a == b {
        return None;
    }
    if !range_all_digits(buf, a, b) {
        return None;
    }
    let mut v: usize = 0;
    let mut k: usize = a;
    while k < b
        invariant
            a <= k <= b <= buf.len(),
            all_digits(buf@, a as int, b as int),
            v == dec_val(buf@, a as int, k as int),
        decreases b - k,
    {
        assert(is_digit(buf@[k as int]));
        let d = buf[k] - 48;
        if v > usize::MAX / 10 || (v == usize::MAX / 10 && d as usize > usize::MAX % 10) {
            proof {
                vstd::arithmetic::div_mod::lemma_fundamental_div_mod(usize::MAX as int, 10);
                assert(v * 10 + d > usize::MAX);
                lemma_dec_val_grows(buf@, a as int, k + 1, b as int);
            }
            return None;
        }
        proof {
            vstd::arithmetic::div_mod::lemma_fundamental_div_mod(usize::MAX as int, 10);
            assert(v * 10 + d <= usize::MAX);
        }
        v = v * 10 + (d as usize);
        k = k + 1;
    }
    Some(v)
}

/// Outcome of looking for a `content-length` header.
#[derive(Clone, Copy)]
enum ClOutcome {
    /// No such header line was seen.
    NoneSeen,
    /// The first such line held this value.
    Parsed(usize),
    /// The first such line was not plain digits, or its value cannot fit.
    Unusable,
}

fn scan_header_lines(buf: &Vec<u8>, i0: usize, he: usize) -> (r: (ClOutcome, bool))
    requires
        i0 <= buf.len(),
        he + 4 <= buf.len(),
    ensures
        ({
            let h = scan_headers(buf@, i0 as int, he as int);
            &&& r.1 == h.connection_close
            &&& (r.0 matches ClOutcome::Parsed(v) ==> h.content_length == Some(v as int)
                && !h.bad_content_length)
            &&& (r.0 is NoneSeen ==> h.content_length is None && !h.bad_content_length)
            &&& (r.0 is Unusable ==> h.bad_content_length || (h.content_length matches Some(v)
                && v > usize::MAX))
        }),
{
    let ghost h0 = scan_headers(buf@, i0 as int, he as int);
    let mut i: usize = i0;
    let mut cl = ClOutcome::NoneSeen;
    let mut close = false;
    loop
        invariant
            i <= buf.len(),
            he + 4 <= buf.len(),
            h0 == scan_headers(buf@, i0 as int, he as int),
            ({
                let hr = scan_headers(buf@, i as int, he as int);
                &&& h0.connection_close == (close || hr.connection_close)
                &&& (cl is NoneSeen ==> h0.content_length == hr.content_length
                    && h0.bad_content_length == hr.bad_content_length)
                &&& (cl matches ClOutcome::Parsed(v) ==> h0.content_length == Some(v as int)
                    && !h0.bad_content_length)
                &&& (cl is Unusable ==> h0.bad_content_length || (h0.content_length matches Some(
                    v,
                ) && v > usize::MAX))
            }),
        decreases he + 2 - i,
    {
        if i >= he + 2 {
            return (cl, close);
        }
        match find_crlf(buf, i) {
            None => {
                return (cl, close);
            },
            Some(j) => {
                if j > he {
                    return (cl, close);
                }
                let mut this_close = false;
                match find_byte(buf, i, j, 58) {
                    None => {},
                    Some(k) => {
                        if content_length_name_at(buf, i, k) {
                            if let ClOutcome::NoneSeen = cl {
                                let a = skip_ows_forward(buf, k + 1, j);
                                let b = skip_ows_backward(buf, k + 1, j);
                                if a < b {
                                    match parse_decimal(buf, a, b) {
                                        Some(v) => {
                                            cl = ClOutcome::Parsed(v);
                                        },
                                        None => {
                                            cl = ClOutcome::Unusable;
                                        },
                                    }
                                } else {
                                    cl = ClOutcome::Unusable;
                                }
                            }
                        } else if connection_name_at(buf, i, k) {
                            let a = skip_ows_forward(buf, k + 1, j);
                            let b = skip_ows_backward(buf, k + 1, j);
                            this_close = close_value_at(buf, a, b);
                        }
                    },
                }
                close = close || this_close;
                i = j + 2;
            },
        }
    }
}

/// Read how far `buf` gets towards one whole request: still incomplete, no
/// longer well-formed, or complete in its first `len` bytes with the client's
/// keep-alive intent.
pub fn check_request(buf: &Vec<u8>) -> (r: RequestStatus)
    ensures
        r == request_status_of(buf@),
{
    match find_crlf(buf, 0) {
        None => {
            if buf.len() > MAX_HEAD_BYTES {
                RequestStatus::Malformed
            } else {
                RequestStatus::Incomplete
            }
        },
        Some(fl) => {
            if !request_line_ok(buf, fl) {
                return RequestStatus::Malformed;
            }
            match find_head_end(buf, 0) {
                None => {
                    if buf.len() > MAX_HEAD_BYTES {
                        RequestStatus::Malformed
                    } else {
                        RequestStatus::Incomplete
                    }
                },
                Some(he) => {
                    let (cl, close) = scan_header_lines(buf, fl + 2, he);
                    match cl {
                        ClOutcome::Unusable => RequestStatus::Malformed,
                        ClOutcome::NoneSeen => RequestStatus::Complete {
                            len: he + 4,
                            keep_alive: !close,
                        },
                        ClOutcome::Parsed(v) => {
                            if v > usize::MAX - (he + 4) {
                                RequestStatus::Malformed
                            } else if buf.len() >= he + 4 + v {
                                RequestStatus::Complete { len: he + 4 + v, keep_alive: !close }
                            } else {
                                RequestStatus::Incomplete
                            }
                        },
                    }
                },
            }
        },
    }
}

// ---------------------------------------------------------------------------
// The fixed response
// ---------------------------------------------------------------------------

/// The fixed response as bytes: the status line `HTTP/1.1 200 OK`, one header
/// `content-length: 12`, a blank line, and the body `Hello World!`.
pub open spec fn fixed_response_bytes() -> Seq<u8> {
    seq![
        72u8, 84, 84, 80, 47, 49, 46, 49, 32, 50, 48, 48, 32, 79, 75, 13, 10,
        99, 111, 110, 116, 101, 110, 116, 45, 108, 101, 110, 103, 116, 104, 58, 32, 49, 50, 13, 10,
        13, 10,
        72, 101, 108, 108, 111, 32, 87, 111, 114, 108, 100, 33,
    ]
}

/// Build the fixed response. Every well-framed request is answered with
/// exactly these bytes, whatever its method, target or headers.
#[verifier::rlimit(100)]
pub fn fixed_response() -> (r: Vec<u8>)
    ensures
        r@ == fixed_response_bytes(),
{
    let mut v: Vec<u8> = Vec::new();
    v.push(72);
    v.push(84);
    v.push(84);
    v.push(80);
    v.push(47);
    v.push(49);
    v.push(46);
    v.push(49);
    v.push(32);
    v.push(50);
    v.push(48);
    v.push(48);
    v.push(32);
    v.push(79);
    v.push(75);
    v.push(13);
    v.push(10);
    v.push(99);
    v.push(111);
    v.push(110);
    v.push(116);
    v.push(101);
    v.push(110);
    v.push(116);
    v.push(45);
    v.push(108);
    v.push(101);
    v.push(110);
    v.push(103);
    v.push(116);
    v.push(104);
    v.push(58);
    v.push(32);
    v.push(49);
    v.push(50);
    v.push(13);
    v.push(10);
    v.push(13);
    v.push(10);
    v.push(72);
    v.push(101);
    v.push(108);
    v.push(108);
    v.push(111);
    v.push(32);
    v.push(87);
    v.push(111);
    v.push(114);
    v.push(108);
    v.push(100);
    v.push(33);
    proof {
        assert(v@ =~= fixed_response_bytes());
    }
    v
}

} // verus!
