use vstd::prelude::*;
use vstd::string::{StrSliceExecFns, StringSliceAdditionalSpecFns};
use vstd::utf8::{
    decode_utf8, encode_utf8, encode_utf8_decode_utf8, encode_utf8_valid_utf8, is_ascii_chars,
    is_ascii_chars_encode_utf8, valid_utf8,
};

use httparse::Error as HeaderError;

use crate::error::ParseError;
use crate::text::{decimal, decimal_digits, push_str, push_unsigned};

verus! {

/// Whether `c` is white space in the sense of Unicode's `White_Space`
/// property, the set that `char::is_whitespace` tests.
pub open spec fn white_space(c: char) -> bool {
    let v = c as u32;
    ||| 9 <= v <= 13
    ||| v == 32
    ||| v == 0x85
    ||| v == 0xA0
    ||| v == 0x1680
    ||| 0x2000 <= v <= 0x200A
    ||| v == 0x2028
    ||| v == 0x2029
    ||| v == 0x202F
    ||| v == 0x205F
    ||| v == 0x3000
}

fn char_is_whitespace(c: char) -> (r: bool)
    ensures
        r == white_space(c),
{
    let v = c as u32;
    (9 <= v && v <= 13) || v == 32 || v == 0x85 || v == 0xA0 || v == 0x1680 || (0x2000 <= v && v <= 0x200A)
        || v == 0x2028 || v == 0x2029 || v == 0x202F || v == 0x205F || v == 0x3000
}

/// Trusted: `std::str::from_utf8`, which accepts exactly the valid UTF-8
/// byte strings and then gives the text they encode.
#[verifier::external_body]
fn str_from_utf8(b: &[u8]) -> (r: Result<&str, std::str::Utf8Error>)
    ensures
        r is Ok <==> valid_utf8(b@),
        r matches Ok(s) ==> s@ == decode_utf8(b@),
{
    std::str::from_utf8(b)
}

/// The value of a run of decimal digits.
pub open spec fn digits_value(s: Seq<char>) -> int
    decreases s.len(),
{
    if s.len() == 0 {
        0
    } else {
        digits_value(s.drop_last()) * 10 + (s.last() as int - '0' as int)
    }
}

pub open spec fn all_digits(s: Seq<char>) -> bool {
    forall|i: int| 0 <= i < s.len() ==> '0' <= #[trigger] s[i] <= '9'
}

/// The number an unsigned integer text stands for: an optional `+`, then
/// one or more decimal digits.
pub open spec fn unsigned_text_value(s: Seq<char>) -> Option<int> {
    let d = if s.len() > 0 && s[0] == '+' {
        s.drop_first()
    } else {
        s
    };
    if d.len() > 0 && all_digits(d) {
        Some(digits_value(d))
    } else {
        None
    }
}

/// Trusted: `usize::from_str`, which reads an optional `+` and decimal
/// digits, and fails on anything else or on a value too large.
#[verifier::external_body]
fn parse_usize(s: &str) -> (r: Result<usize, std::num::ParseIntError>)
    ensures
        r is Ok <==> (unsigned_text_value(s@) matches Some(v) && v <= usize::MAX),
        r matches Ok(n) ==> unsigned_text_value(s@) == Some(n as int),
{
    s.parse::<usize>()
}

/// A header of a message frame: its name and its raw value.
pub struct Header {
    pub name: String,
    pub value: Vec<u8>,
}

/// What reading the headers of a frame gave.
pub enum HeaderStatus {
    /// All headers are there: the bytes they take, and the headers.
    Complete(usize, Vec<Header>),
    /// More bytes are needed.
    Partial,
}

/// What reading the headers of a frame gave, as plain values.
pub enum ParsedHeaders {
    Failed,
    Partial,
    Complete(usize, Seq<Header>),
}

pub open spec fn header_status_view(h: Result<HeaderStatus, HeaderError>) -> ParsedHeaders {
    match h {
        Err(_) => ParsedHeaders::Failed,
        Ok(HeaderStatus::Partial) => ParsedHeaders::Partial,
        Ok(HeaderStatus::Complete(n, hs)) => ParsedHeaders::Complete(n, hs@),
    }
}

/// What httparse reads from the bytes `src`, with room for two headers.
pub uninterp spec fn parsed_headers(src: Seq<u8>) -> ParsedHeaders;

/// Trusted: `httparse::parse_headers` with room for two headers, which
/// depends on the bytes alone: its result is named by `parsed_headers`. A
/// complete result takes no more bytes than there are, and holds at most
/// two headers.
#[verifier::external_body]
fn parse_headers(src: &[u8]) -> (r: Result<HeaderStatus, HeaderError>)
    ensures
        header_status_view(r) == parsed_headers(src@),
        r matches Ok(HeaderStatus::Complete(n, hs)) ==> n <= src@.len() && hs@.len() <= 2,
{
    let mut dst = [httparse::EMPTY_HEADER; 2];
    match httparse::parse_headers(src, &mut dst)? {
        httparse::Status::Complete((n, hs)) => Ok(HeaderStatus::Complete(
            n,
            hs.iter().map(|h| Header { name: h.name.to_string(), value: h.value.to_vec() }).collect(),
        )),
        httparse::Status::Partial => Ok(HeaderStatus::Partial),
    }
}

/// The pieces of `s` between the occurrences of `sep`.
pub open spec fn split_at_char(s: Seq<char>, sep: char) -> Seq<Seq<char>>
    decreases s.len(),
{
    if s.len() == 0 {
        seq![Seq::empty()]
    } else {
        let prev = split_at_char(s.drop_last(), sep);
        if s.last() == sep {
            prev.push(Seq::empty())
        } else {
            prev.update(prev.len() - 1, prev.last().push(s.last()))
        }
    }
}

/// How many characters of white space `s` starts with.
pub open spec fn leading_space(s: Seq<char>) -> nat
    decreases s.len(),
{
    if s.len() > 0 && white_space(s[0]) {
        1 + leading_space(s.drop_first())
    } else {
        0
    }
}

/// How many characters of white space `s` ends with.
pub open spec fn trailing_space(s: Seq<char>) -> nat
    decreases s.len(),
{
    if s.len() > 0 && white_space(s.last()) {
        1 + trailing_space(s.drop_last())
    } else {
        0
    }
}

/// `s` without the white space at its start and end.
pub open spec fn trim(s: Seq<char>) -> Seq<char> {
    let t = s.skip(leading_space(s) as int);
    t.take(t.len() - trailing_space(t))
}

/// The charset named by the first of `params` that starts, once trimmed,
/// with `charset=`.
pub open spec fn charset_in(params: Seq<Seq<char>>) -> Option<Seq<char>>
    decreases params.len(),
{
    if params.len() == 0 {
        None
    } else {
        let t = trim(params[0]);
        if t.len() >= 8 && t.take(8) == "charset="@ {
            Some(t.skip(8))
        } else {
            charset_in(params.drop_first())
        }
    }
}

/// Whether a `Content-Type` value names UTF-8 as its charset.
pub open spec fn content_type_ok(value: Seq<char>) -> bool {
    match charset_in(split_at_char(value, ';').drop_first()) {
        Some(c) => c == "utf-8"@ || c == "utf8"@,
        None => false,
    }
}

proof fn lemma_split_nonempty(s: Seq<char>, sep: char)
    ensures
        split_at_char(s, sep).len() >= 1,
    decreases s.len(),
{
    if s.len() > 0 {
        lemma_split_nonempty(s.drop_last(), sep);
    }
}

proof fn lemma_leading_space_bound(s: Seq<char>)
    ensures
        leading_space(s) <= s.len(),
    decreases s.len(),
{
    if s.len() > 0 && white_space(s[0]) {
        lemma_leading_space_bound(s.drop_first());
    }
}

proof fn lemma_trailing_space_bound(s: Seq<char>)
    ensures
        trailing_space(s) <= s.len(),
    decreases s.len(),
{
    if s.len() > 0 && white_space(s.last()) {
        lemma_trailing_space_bound(s.drop_last());
    }
}

/// `s` without the white space at its start and end.
fn trim_chars(s: &Vec<char>) -> (r: Vec<char>)
    ensures
        r@ == trim(s@),
{
    let n = s.len();
    let mut start: usize = 0;
    proof {
        assert(s@.skip(0) =~= s@);
    }
    while start < n && char_is_whitespace(s[start])
        invariant
            n == s@.len(),
            start <= n,
            leading_space(s@) == start + leading_space(s@.skip(start as int)),
        decreases n - start,
    {
        proof {
            assert(s@.skip(start as int).drop_first() =~= s@.skip(start + 1));
        }
        start = start + 1;
    }
    proof {
        assert(leading_space(s@.skip(start as int)) == 0);
    }
    let ghost t = s@.skip(start as int);
    let mut end: usize = n;
    proof {
        assert(t.take((n - start) as int) =~= t);
    }
    while end > start && char_is_whitespace(s[end - 1])
        invariant
            n == s@.len(),
            start <= end <= n,
            t == s@.skip(start as int),
            trailing_space(t) == (n - end) + trailing_space(t.take(end - start)),
        decreases end - start,
    {
        proof {
            assert(t.take(end - start).drop_last() =~= t.take(end - start - 1));
            assert(t.take(end - start).last() == s@[end - 1]);
        }
        end = end - 1;
    }
    proof {
        assert(trailing_space(t.take(end - start)) == 0);
    }
    let mut r: Vec<char> = Vec::new();
    let mut i = start;
    while i < end
        invariant
            n == s@.len(),
            start <= i <= end <= n,
            r@ == s@.subrange(start as int, i as int),
        decreases end - i,
    {
        r.push(s[i]);
        i = i + 1;
        proof {
            assert(r@ =~= s@.subrange(start as int, i as int));
        }
    }
    proof {
        assert(r@ =~= trim(s@));
    }
    r
}

/// The pieces of `s` between the semicolons.
fn split_semicolons(s: &str) -> (r: Vec<Vec<char>>)
    ensures
        r@.len() == split_at_char(s@, ';').len(),
        forall|i: int| 0 <= i < r@.len() ==> (#[trigger] r@[i])@ == split_at_char(s@, ';')[i],
{
    let n = s.unicode_len();
    let mut done: Vec<Vec<char>> = Vec::new();
    let mut current: Vec<char> = Vec::new();
    let mut i: usize = 0;
    while i < n
        invariant
            n == s@.len(),
            i <= n,
            done@.len() + 1 == split_at_char(s@.take(i as int), ';').len(),
            forall|k: int| 0 <= k < done@.len() ==> (#[trigger] done@[k])@ == split_at_char(s@.take(i as int), ';')[k],
            current@ == split_at_char(s@.take(i as int), ';').last(),
        decreases n - i,
    {
        let c = s.get_char(i);
        proof {
            assert(s@.take(i + 1).drop_last() =~= s@.take(i as int));
            assert(s@.take(i + 1).last() == c);
        }
        if c == ';' {
            done.push(current);
            current = Vec::new();
        } else {
            current.push(c);
        }
        i = i + 1;
        proof {
            let prev = split_at_char(s@.take(i - 1), ';');
            if c == ';' {
                assert(current@ =~= Seq::<char>::empty());
            }
            assert forall|k: int| 0 <= k < done@.len() implies (#[trigger] done@[k])@ == split_at_char(
                s@.take(i as int),
                ';',
            )[k] by {
                if k < done@.len() - 1 || c != ';' {
                    assert(done@[k]@ == prev[k]);
                }
            }
        }
    }
    done.push(current);
    proof {
        assert(s@.take(n as int) =~= s@);
    }
    done
}

/// Whether a `Content-Type` value names UTF-8 as its charset, see
/// [`content_type_ok`].
fn check_content_type(value: &str) -> (r: bool)
    ensures
        r == content_type_ok(value@),
{
    let pieces = split_semicolons(value);
    proof {
        lemma_split_nonempty(value@, ';');
    }
    let ghost params = split_at_char(value@, ';').drop_first();
    let n = pieces.len();
    let mut i: usize = 1;
    proof {
        assert(params.skip(0) =~= params);
    }
    while i < n
        invariant
            n == pieces@.len(),
            params == split_at_char(value@, ';').drop_first(),
            n == params.len() + 1,
            1 <= i <= n,
            forall|k: int| 0 <= k < n - 1 ==> (#[trigger] params[k]) == pieces@[k + 1]@,
            charset_in(params) == charset_in(params.skip(i - 1)),
        decreases n - i,
    {
        let t = trim_chars(&pieces[i]);
        proof {
            assert(pieces@[i as int]@ == params[i - 1]);
            assert(params.skip(i - 1)[0] == params[i - 1]);
            assert(params.skip(i - 1).drop_first() =~= params.skip(i as int));
        }
        if t.len() >= 8 && t[0] == 'c' && t[1] == 'h' && t[2] == 'a' && t[3] == 'r' && t[4] == 's' && t[5] == 'e'
            && t[6] == 't' && t[7] == '=' {
            proof {
                reveal_strlit("charset=");
                assert(t@.take(8) =~= "charset="@);
            }
            let rest = t.len() - 8;
            let ok = (rest == 5 && t[8] == 'u' && t[9] == 't' && t[10] == 'f' && t[11] == '-' && t[12] == '8') || (
            rest == 4 && t[8] == 'u' && t[9] == 't' && t[10] == 'f' && t[11] == '8');
            proof {
                reveal_strlit("utf-8");
                reveal_strlit("utf8");
                let c = t@.skip(8);
                assert(charset_in(params) == Some(c));
                assert(c.len() == rest);
                assert forall|k: int| 0 <= k < c.len() implies c[k] == t@[k + 8] by {}
                if ok {
                    if rest == 5 {
                        assert(c =~= "utf-8"@);
                    } else {
                        assert(c =~= "utf8"@);
                    }
                } else {
                    if c == "utf-8"@ {
                        assert(c[0] == 'u' && c[1] == 't' && c[2] == 'f' && c[3] == '-' && c[4] == '8');
                    }
                    if c == "utf8"@ {
                        assert(c[0] == 'u' && c[1] == 't' && c[2] == 'f' && c[3] == '8');
                    }
                }

            }
            return ok;
        }
        proof {
            reveal_strlit("charset=");
            if t@.len() >= 8 && t@.take(8) == "charset="@ {
                assert forall|k: int| 0 <= k < 8 implies t@[k] == "charset="@[k] by {
                    assert(t@.take(8)[k] == t@[k]);
                }
                assert(t@[0] == 'c' && t@[1] == 'h' && t@[2] == 'a' && t@[3] == 'r');
                assert(t@[4] == 's' && t@[5] == 'e' && t@[6] == 't' && t@[7] == '=');
            }
        }
        i = i + 1;
    }
    proof {
        assert(params.skip(i - 1).len() == 0);
    }
    false
}

/// What the headers of a frame say, read in order.
pub enum HeaderScan {
    /// The content length given last, if any.
    Length(Option<int>),
    /// A header value is not UTF-8.
    BadUtf8,
    /// A content length is not a number that fits.
    BadLength,
    /// A content type names no UTF-8 charset.
    BadContentType,
}

/// Reading one more header, with `acc` the content length so far.
pub open spec fn scan_header(acc: Option<int>, h: Header) -> HeaderScan {
    if h.name@ == "Content-Length"@ {
        if !valid_utf8(h.value@) {
            HeaderScan::BadUtf8
        } else {
            match unsigned_text_value(decode_utf8(h.value@)) {
                Some(v) => if v <= usize::MAX {
                    HeaderScan::Length(Some(v))
                } else {
                    HeaderScan::BadLength
                },
                None => HeaderScan::BadLength,
            }
        }
    } else if h.name@ == "Content-Type"@ {
        if !valid_utf8(h.value@) {
            HeaderScan::BadUtf8
        } else if content_type_ok(decode_utf8(h.value@)) {
            HeaderScan::Length(acc)
        } else {
            HeaderScan::BadContentType
        }
    } else {
        HeaderScan::Length(acc)
    }
}

/// Reading the headers `hs` in order, stopping at the first bad one.
pub open spec fn scan_headers(hs: Seq<Header>) -> HeaderScan
    decreases hs.len(),
{
    if hs.len() == 0 {
        HeaderScan::Length(None)
    } else {
        match scan_headers(hs.drop_last()) {
            HeaderScan::Length(acc) => scan_header(acc, hs.last()),
            other => other,
        }
    }
}

/// The content length the headers of a frame give. Other headers than
/// `Content-Length` and `Content-Type` are let through.
pub fn decode_headers(headers: &Vec<Header>) -> (r: Result<usize, ParseError>)
    ensures
        match scan_headers(headers@) {
            HeaderScan::Length(Some(n)) => r matches Ok(m) && m == n,
            HeaderScan::Length(None) => r matches Err(ParseError::MissingContentLength),
            HeaderScan::BadUtf8 => r matches Err(ParseError::Utf8(_)),
            HeaderScan::BadLength => r matches Err(ParseError::InvalidContentLength(_)),
            HeaderScan::BadContentType => r matches Err(ParseError::InvalidContentType),
        },
{
    let mut content_len: Option<usize> = None;
    let n = headers.len();
    for i in 0..n
        invariant
            n == headers@.len(),
            scan_headers(headers@.take(i as int)) == HeaderScan::Length(
                match content_len {
                    Some(c) => Some(c as int),
                    None => None,
                },
            ),
    {
        let header = &headers[i];
        proof {
            assert(headers@.take(i + 1).drop_last() =~= headers@.take(i as int));
            assert(headers@.take(i + 1).last() == *header);
        }
        if header.name == "Content-Length".to_owned() {
            let text = match str_from_utf8(header.value.as_slice()) {
                Ok(t) => t,
                Err(e) => {
                    proof {
                        lemma_scan_stops(headers@, i as int + 1);
                    }
                    return Err(ParseError::Utf8(e));
                },
            };
            match parse_usize(text) {
                Ok(len) => {
                    content_len = Some(len);
                },
                Err(e) => {
                    proof {
                        lemma_scan_stops(headers@, i as int + 1);
                    }
                    return Err(ParseError::InvalidContentLength(e));
                },
            }
        } else if header.name == "Content-Type".to_owned() {
            let text = match str_from_utf8(header.value.as_slice()) {
                Ok(t) => t,
                Err(e) => {
                    proof {
                        lemma_scan_stops(headers@, i as int + 1);
                    }
                    return Err(ParseError::Utf8(e));
                },
            };
            if !check_content_type(text) {
                proof {
                    lemma_scan_stops(headers@, i as int + 1);
                }
                return Err(ParseError::InvalidContentType);
            }
        }
    }
    proof {
        assert(headers@.take(n as int) =~= headers@);
    }
    match content_len {
        Some(len) => Ok(len),
        None => Err(ParseError::MissingContentLength),
    }
}

proof fn lemma_digits_value_nonnegative(s: Seq<char>)
    requires
        all_digits(s),
    ensures
        digits_value(s) >= 0,
    decreases s.len(),
{
    if s.len() > 0 {
        assert(all_digits(s.drop_last())) by {
            assert forall|i: int| 0 <= i < s.drop_last().len() implies '0' <= #[trigger] s.drop_last()[i] <= '9' by {
                assert(s.drop_last()[i] == s[i]);
            }
        }
        lemma_digits_value_nonnegative(s.drop_last());
        assert('0' <= s[s.len() - 1] <= '9');
    }
}

proof fn lemma_scan_length_nonnegative(hs: Seq<Header>)
    ensures
        scan_headers(hs) matches HeaderScan::Length(Some(v)) ==> v >= 0,
    decreases hs.len(),
{
    if hs.len() > 0 {
        lemma_scan_length_nonnegative(hs.drop_last());
        let h = hs.last();
        if h.name@ == "Content-Length"@ && valid_utf8(h.value@) {
            let t = decode_utf8(h.value@);
            let d = if t.len() > 0 && t[0] == '+' {
                t.drop_first()
            } else {
                t
            };
            if d.len() > 0 && all_digits(d) {
                lemma_digits_value_nonnegative(d);
            }
        }
    }
}

/// Once the scan of a prefix of the headers fails, the scan of all of
/// them fails the same way.
proof fn lemma_scan_stops(hs: Seq<Header>, k: int)
    requires
        0 <= k <= hs.len(),
        !(scan_headers(hs.take(k)) is Length),
    ensures
        scan_headers(hs) == scan_headers(hs.take(k)),
    decreases hs.len() - k,
{
    if k < hs.len() {
        assert(hs.take(k + 1).drop_last() =~= hs.take(k));
        lemma_scan_stops(hs, k + 1);
    } else {
        assert(hs.take(k) =~= hs);
    }
}

/// Whether `needle` occurs in `hay` at `i`.
pub open spec fn occurs_at(hay: Seq<u8>, needle: Seq<u8>, i: int) -> bool {
    0 <= i && i + needle.len() <= hay.len() && hay.subrange(i, i + needle.len()) == needle
}

/// Where `needle` first occurs in `hay`, or 0 when it does not.
pub open spec fn first_occurrence_or_zero(hay: Seq<u8>, needle: Seq<u8>) -> int {
    if exists|i: int| occurs_at(hay, needle, i) {
        choose|i: int| occurs_at(hay, needle, i) && forall|j: int| 0 <= j < i ==> !occurs_at(hay, needle, j)
    } else {
        0
    }
}

/// Where `needle` first occurs in `hay`.
fn find_bytes(hay: &[u8], needle: &[u8]) -> (r: Option<usize>)
    ensures
        r matches Some(i) ==> occurs_at(hay@, needle@, i as int) && forall|j: int|
            0 <= j < i ==> !occurs_at(hay@, needle@, j),
        r is None ==> forall|j: int| !occurs_at(hay@, needle@, j),
{
    let n = hay.len();
    let m = needle.len();
    if m > n {
        return None;
    }
    let mut i: usize = 0;
    while i <= n - m
        invariant
            n == hay@.len(),
            m == needle@.len(),
            m <= n,
            i <= n - m + 1,
            forall|j: int| 0 <= j < i ==> !occurs_at(hay@, needle@, j),
        decreases n - m + 1 - i,
    {
        let mut k: usize = 0;
        while k < m && hay[i + k] == needle[k]
            invariant
                n == hay@.len(),
                m == needle@.len(),
                i + m <= n,
                k <= m,
                forall|t: int| 0 <= t < k ==> hay@[i + t] == needle@[t],
            decreases m - k,
        {
            k = k + 1;
        }
        if k == m {
            proof {
                assert(hay@.subrange(i as int, i + m) =~= needle@);
            }
            return Some(i);
        }
        proof {
            if occurs_at(hay@, needle@, i as int) {
                assert(hay@.subrange(i as int, i + m)[k as int] == hay@[i + k]);
            }
        }
        i = i + 1;
    }
    None
}

/// The bytes of `Content-Length`.
pub open spec fn content_length_bytes() -> Seq<u8> {
    seq![67u8, 111u8, 110u8, 116u8, 101u8, 110u8, 116u8, 45u8, 76u8, 101u8, 110u8, 103u8, 116u8, 104u8]
}

fn content_length_marker() -> (r: Vec<u8>)
    ensures
        r@ == content_length_bytes(),
{
    let r = vec![67u8, 111u8, 110u8, 116u8, 101u8, 110u8, 116u8, 45u8, 76u8, 101u8, 110u8, 103u8, 116u8, 104u8];
    proof {
        assert(r@ =~= content_length_bytes());
    }
    r
}

proof fn lemma_first_occurrence(hay: Seq<u8>, needle: Seq<u8>, found: int)
    requires
        (exists|i: int| occurs_at(hay, needle, i)) ==> occurs_at(hay, needle, found) && forall|j: int|
            0 <= j < found ==> !occurs_at(hay, needle, j),
        !(exists|i: int| occurs_at(hay, needle, i)) ==> found == 0,
    ensures
        found == first_occurrence_or_zero(hay, needle),
{
    if exists|i: int| occurs_at(hay, needle, i) {
        let c = choose|i: int| occurs_at(hay, needle, i) && forall|j: int| 0 <= j < i ==> !occurs_at(hay, needle, j);
        assert(occurs_at(hay, needle, c) && forall|j: int| 0 <= j < c ==> !occurs_at(hay, needle, j));
        if c < found {
            assert(!occurs_at(hay, needle, c));
        } else if found < c {
            assert(!occurs_at(hay, needle, found));
        }
    }
}

proof fn lemma_first_occurrence_bound(hay: Seq<u8>, needle: Seq<u8>)
    ensures
        0 <= first_occurrence_or_zero(hay, needle) <= hay.len(),
{
    if exists|i: int| occurs_at(hay, needle, i) {
        let w = choose|i: int| occurs_at(hay, needle, i);
        lemma_least_occurrence(hay, needle, w);
        let c = choose|i: int| occurs_at(hay, needle, i) && forall|j: int| 0 <= j < i ==> !occurs_at(hay, needle, j);
        assert(occurs_at(hay, needle, c));
    }
}

/// An occurrence at `w` means there is a first one.
proof fn lemma_least_occurrence(hay: Seq<u8>, needle: Seq<u8>, w: int)
    requires
        occurs_at(hay, needle, w),
    ensures
        exists|i: int| occurs_at(hay, needle, i) && forall|j: int| 0 <= j < i ==> !occurs_at(hay, needle, j),
    decreases w,
{
    if exists|j: int| 0 <= j < w && occurs_at(hay, needle, j) {
        let j = choose|j: int| 0 <= j < w && occurs_at(hay, needle, j);
        lemma_least_occurrence(hay, needle, j);
    } else {
        assert(occurs_at(hay, needle, w) && forall|j: int| 0 <= j < w ==> !occurs_at(hay, needle, j));
    }
}

proof fn lemma_body_outcome_bounds(src: Seq<u8>, offset: int, pending: Option<usize>, r: DecodeStep)
    requires
        0 <= offset <= src.len(),
        exists|len: int| 0 <= len && body_outcome(src, offset, len, r, pending),
    ensures
        r.advance <= src.len(),
        r.decoded matches Decoded::Body(s, e) ==> s <= e <= src.len() && valid_utf8(src.subrange(s as int, e as int)),
{
    let len = choose|len: int| 0 <= len && body_outcome(src, offset, len, r, pending);
    let rest = src.skip(offset);
    if rest.len() >= len && valid_utf8(rest.take(len)) {
        assert(rest.take(len) =~= src.subrange(offset, offset + len));
    }
}

/// What decoding the bytes of a frame gave.
pub enum Decoded {
    /// More bytes are needed.
    NeedMore,
    /// A frame with an empty body: no message.
    Empty,
    /// A frame whose body, the UTF-8 text of a message, spans these bytes.
    Body(usize, usize),
    /// The frame cannot be read.
    Failed(ParseError),
}

/// The outcome of one decoding step, and how many bytes it used up.
pub struct DecodeStep {
    pub advance: usize,
    pub decoded: Decoded,
}

/// What decoding a body of `len` bytes that starts at `offset` of `src`
/// gives, with `pending` the content length still awaited afterwards.
pub open spec fn body_outcome(src: Seq<u8>, offset: int, len: int, r: DecodeStep, pending: Option<usize>) -> bool {
    let rest = src.skip(offset);
    if rest.len() < len {
        r.advance == offset && r.decoded is NeedMore && pending == Some(len as usize)
    } else if !valid_utf8(rest.take(len)) {
        r.advance == offset && (r.decoded matches Decoded::Failed(ParseError::Utf8(_))) && pending == Some(
            len as usize,
        )
    } else {
        &&& pending is None
        &&& r.advance == offset + len
        &&& if len == 0 {
            r.decoded is Empty
        } else {
            r.decoded matches Decoded::Body(s, e) && s == offset && e == offset + len
        }
    }
}

/// What one decoding step with no body awaited gives on `src`, given what
/// reading its headers gave (`ph`), with `pending` the content length
/// awaited afterwards. Complete headers with a content length are used up
/// and the body is decoded right away. Bad headers are used up too (unless
/// the length is just missing), and so are the bytes up to the next
/// `Content-Length`, to skip the garbage.
pub open spec fn headers_outcome(src: Seq<u8>, ph: ParsedHeaders, r: DecodeStep, pending: Option<usize>) -> bool {
    match ph {
        ParsedHeaders::Failed => r.advance == 0 && (r.decoded matches Decoded::Failed(ParseError::Headers(_)))
            && pending is None,
        ParsedHeaders::Partial => r.advance == 0 && r.decoded is NeedMore && pending is None,
        ParsedHeaders::Complete(n, hs) => match scan_headers(hs) {
            HeaderScan::Length(Some(len)) => body_outcome(
                src,
                n as int,
                len,
                r,
                pending,
            ),
            HeaderScan::Length(None) => r.advance == first_occurrence_or_zero(src, content_length_bytes())
                && (r.decoded matches Decoded::Failed(ParseError::MissingContentLength))
                && pending is None,
            HeaderScan::BadUtf8 => r.advance == n + first_occurrence_or_zero(src.skip(n as int), content_length_bytes())
                && (r.decoded matches Decoded::Failed(ParseError::Utf8(_)))
                && pending is None,
            HeaderScan::BadLength => r.advance == n + first_occurrence_or_zero(src.skip(n as int), content_length_bytes())
                && (r.decoded matches Decoded::Failed(ParseError::InvalidContentLength(_)))
                && pending is None,
            HeaderScan::BadContentType => r.advance == n + first_occurrence_or_zero(src.skip(n as int), content_length_bytes())
                && (r.decoded matches Decoded::Failed(ParseError::InvalidContentType))
                && pending is None,
        },
    }
}

/// Encodes and decodes the frames of the Language Server Protocol: a
/// `Content-Length` header, an empty line, and a JSON body.
pub struct LanguageServerCodec {
    content_len: Option<usize>,
}

impl LanguageServerCodec {
    /// The length of the body awaited once its headers were read.
    pub closed spec fn pending_length(self) -> Option<usize> {
        self.content_len
    }

    pub fn new() -> (r: Self)
        ensures
            r.pending_length() is None,
    {
        LanguageServerCodec { content_len: None }
    }

    fn decode_body(&mut self, src: &[u8], offset: usize) -> (r: DecodeStep)
        requires
            old(self).pending_length() is Some,
            offset <= src@.len(),
        ensures
            body_outcome(
                src@,
                offset as int,
                old(self).pending_length()->0 as int,
                r,
                final(self).pending_length(),
            ),
    {
        let len = match self.content_len {
            Some(l) => l,
            None => 0,
        };
        if src.len() - offset < len {
            return DecodeStep { advance: offset, decoded: Decoded::NeedMore };
        }
        let end = offset + len;
        let body = &src[offset..end];
        proof {
            assert(body@ =~= src@.skip(offset as int).take(len as int));
        }
        match str_from_utf8(body) {
            Err(e) => DecodeStep { advance: offset, decoded: Decoded::Failed(ParseError::Utf8(e)) },
            Ok(_) => {
                self.content_len = None;
                if len == 0 {
                    DecodeStep { advance: end, decoded: Decoded::Empty }
                } else {
                    DecodeStep { advance: end, decoded: Decoded::Body(offset, end) }
                }
            },
        }
    }

    /// One decoding step with no body awaited, given what reading the
    /// headers gave. Complete headers with a content length are used up and
    /// the body is decoded right away. Bad headers are used up too (unless
    /// the length is just missing), and so are the bytes up to the next
    /// `Content-Length`, to skip the garbage.
    pub fn decode_with_headers(&mut self, src: &[u8], headers: Result<HeaderStatus, HeaderError>) -> (r:
        DecodeStep)
        requires
            old(self).pending_length() is None,
            headers matches Ok(HeaderStatus::Complete(n, _)) ==> n <= src@.len(),
        ensures
            headers_outcome(src@, header_status_view(headers), r, final(self).pending_length()),
    {
        match headers {
            Err(e) => DecodeStep { advance: 0, decoded: Decoded::Failed(ParseError::Headers(e)) },
            Ok(HeaderStatus::Partial) => DecodeStep { advance: 0, decoded: Decoded::NeedMore },
            Ok(HeaderStatus::Complete(n, hs)) => match decode_headers(&hs) {
                Ok(len) => {
                    self.content_len = Some(len);
                    self.decode_body(src, n)
                },
                Err(err) => {
                    let skip = match err {
                        ParseError::MissingContentLength => 0,
                        _ => n,
                    };
                    let rest = &src[skip..src.len()];
                    let marker = content_length_marker();
                    let found = match find_bytes(rest, marker.as_slice()) {
                        Some(i) => i,
                        None => 0,
                    };
                    proof {
                        assert(rest@ =~= src@.skip(skip as int));
                        if skip == 0 {
                            assert(src@.skip(0) =~= src@);
                        }
                        lemma_first_occurrence(rest@, marker@, found as int);
                    }
                    DecodeStep { advance: skip + found, decoded: Decoded::Failed(err) }
                },
            },
        }
    }

    /// One decoding step: the body when its length is known, else the
    /// headers and then the body.
    pub fn decode(&mut self, src: &[u8]) -> (r: DecodeStep)
        ensures
            old(self).pending_length() matches Some(len) ==> body_outcome(
                src@,
                0,
                len as int,
                r,
                final(self).pending_length(),
            ),
            old(self).pending_length() is None ==> headers_outcome(
                src@,
                parsed_headers(src@),
                r,
                final(self).pending_length(),
            ),
            r.advance <= src@.len(),
            r.decoded matches Decoded::Body(s, e) ==> s <= e <= src@.len() && valid_utf8(src@.subrange(s as int, e as int)),
    {
        if self.content_len.is_some() {
            let r = self.decode_body(src, 0);
            proof {
                lemma_body_outcome_bounds(src@, 0, self.content_len, r);
            }
            r
        } else {
            let headers = parse_headers(src);
            let ghost h = headers;
            let r = self.decode_with_headers(src, headers);
            proof {
                match h {
                    Ok(HeaderStatus::Complete(n, hs)) => {
                        lemma_scan_length_nonnegative(hs@);
                        match scan_headers(hs@) {
                            HeaderScan::Length(Some(len)) => {
                                lemma_body_outcome_bounds(src@, n as int, self.content_len, r);
                            },
                            HeaderScan::Length(None) => {
                                lemma_first_occurrence_bound(src@, content_length_bytes());
                            },
                            _ => {
                                lemma_first_occurrence_bound(src@.skip(n as int), content_length_bytes());
                            },
                        }
                    },
                    _ => {},
                }
            }
            r
        }
    }
}

/// The text before the message in its frame, for a message of `len` bytes.
pub open spec fn frame_prefix(len: nat) -> Seq<char> {
    "Content-Length: "@ + decimal(len as int) + "\r\n\r\n"@
}

/// The bytes of the frame of `msg`.
pub open spec fn frame_bytes(msg: Seq<char>) -> Seq<u8> {
    encode_utf8(frame_prefix(encode_utf8(msg).len()) + msg)
}

proof fn lemma_encode_utf8_concat(a: Seq<char>, b: Seq<char>)
    ensures
        encode_utf8(a + b) == encode_utf8(a) + encode_utf8(b),
    decreases a.len(),
{
    if a.len() == 0 {
        assert(a + b =~= b);
        assert(encode_utf8(a) =~= Seq::<u8>::empty());
        assert(encode_utf8(a) + encode_utf8(b) =~= encode_utf8(b));
    } else {
        assert((a + b).drop_first() =~= a.drop_first() + b);
        assert((a + b)[0] == a[0]);
        lemma_encode_utf8_concat(a.drop_first(), b);
        let e = vstd::utf8::encode_scalar(a[0] as u32);
        assert(encode_utf8(a + b) == e + encode_utf8(a.drop_first() + b));
        assert(encode_utf8(a) == e + encode_utf8(a.drop_first()));
        assert(e + (encode_utf8(a.drop_first()) + encode_utf8(b)) =~= (e + encode_utf8(a.drop_first())) + encode_utf8(b));
    }
}

proof fn lemma_decimal_digits_value(n: nat)
    ensures
        decimal_digits(n).len() >= 1,
        all_digits(decimal_digits(n)),
        digits_value(decimal_digits(n)) == n,
    decreases n,
{
    let d = decimal_digits(n);
    let last = (n % 10) as int;
    assert(crate::text::digit_char(last) as int == 48 + last);
    assert('0' as int == 48);
    if n < 10 {
        assert(d.drop_last() =~= Seq::<char>::empty());
        assert(digits_value(d.drop_last()) == 0);
        assert(d.last() == crate::text::digit_char(last));
        assert(digits_value(d) == digits_value(d.drop_last()) * 10 + (d.last() as int - '0' as int));
    } else {
        lemma_decimal_digits_value(n / 10);
        assert(d.drop_last() =~= decimal_digits(n / 10));
        assert(d.last() == crate::text::digit_char(last));
        assert(digits_value(d) == digits_value(d.drop_last()) * 10 + (d.last() as int - '0' as int));
        assert((n / 10) * 10 + n % 10 == n);
        assert forall|i: int| 0 <= i < d.len() implies '0' <= #[trigger] d[i] <= '9' by {
            if i < d.len() - 1 {
                assert(d[i] == decimal_digits(n / 10)[i]);
            }
        }
    }
}

/// The frame `encode_frame` writes for a message is read back as that
/// message: its header gives the message's length, and once the header
/// reader reports it as the one header of the frame, the body decoded is
/// exactly the message (no message at all when it is empty), and the whole
/// frame is used up.
pub proof fn lemma_frame_roundtrip(msg: Seq<char>, h: Header, r: DecodeStep, pending: Option<usize>)
    requires
        h.name@ == "Content-Length"@,
        h.value@ == encode_utf8(decimal(encode_utf8(msg).len() as int)),
        encode_utf8(msg).len() <= usize::MAX,
        body_outcome(
            frame_bytes(msg),
            frame_prefix(encode_utf8(msg).len()).len() as int,
            encode_utf8(msg).len() as int,
            r,
            pending,
        ),
    ensures
        scan_headers(seq![h]) == HeaderScan::Length(Some(encode_utf8(msg).len() as int)),
        pending is None,
        r.advance == frame_bytes(msg).len(),
        encode_utf8(msg).len() == 0 ==> r.decoded is Empty,
        encode_utf8(msg).len() > 0 ==> (r.decoded matches Decoded::Body(s, e) && decode_utf8(
            frame_bytes(msg).subrange(s as int, e as int),
        ) == msg),
{
    let n = encode_utf8(msg).len();
    let digits = decimal(n as int);
    lemma_decimal_digits_value(n);
    assert(digits == decimal_digits(n));
    encode_utf8_decode_utf8(digits);
    encode_utf8_valid_utf8(digits);
    assert(unsigned_text_value(digits) == Some(n as int));
    assert(seq![h].drop_last() =~= Seq::<Header>::empty());
    assert(scan_headers(Seq::<Header>::empty()) == HeaderScan::Length(None));
    assert(seq![h].last() == h);
    assert(decode_utf8(h.value@) == digits);
    assert(scan_header(None, h) == HeaderScan::Length(Some(n as int)));
    assert(scan_headers(seq![h]) == HeaderScan::Length(Some(n as int)));
    let p = frame_prefix(n);
    reveal_strlit("Content-Length: ");
    reveal_strlit("\r\n\r\n");
    assert(is_ascii_chars(p)) by {
        assert forall|i: int| 0 <= i < p.len() implies '\0' <= #[trigger] p[i] <= '\u{7f}' by {
            let a = "Content-Length: "@;
            if i < a.len() {
                assert(p[i] == a[i]);
            } else if i < a.len() + digits.len() {
                assert(p[i] == digits[i - a.len()]);
            } else {
                assert(p[i] == "\r\n\r\n"@[i - a.len() - digits.len()]);
            }
        }
    }
    is_ascii_chars_encode_utf8(p);
    lemma_encode_utf8_concat(p, msg);
    let src = frame_bytes(msg);
    assert(src == encode_utf8(p) + encode_utf8(msg));
    assert(src.skip(p.len() as int) =~= encode_utf8(msg));
    assert(src.skip(p.len() as int).take(n as int) =~= encode_utf8(msg));
    encode_utf8_valid_utf8(msg);
    encode_utf8_decode_utf8(msg);
    if n > 0 {
        assert(src.subrange(p.len() as int, (p.len() + n) as int) =~= encode_utf8(msg));
    }
}

/// The frame of a message: a `Content-Length` header with the length of
/// the message in bytes, an empty line, and the message.
pub fn encode_frame(msg: &str) -> (r: String)
    ensures
        r@ == "Content-Length: "@ + decimal(msg.spec_bytes().len() as int) + "\r\n\r\n"@ + msg@,
{
    let mut s = String::new();
    push_str(&mut s, "Content-Length: ");
    push_unsigned(&mut s, msg.as_bytes().len() as u64);
    push_str(&mut s, "\r\n\r\n");
    push_str(&mut s, msg);
    s
}

} // verus!
