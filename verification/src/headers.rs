//! Request-head handling: finding the end of the header block in a stream
//! of socket reads, splitting the head into its request line and header
//! fields, and reading the common header values.

use vstd::prelude::*;
use vstd::utf8::encode_utf8;
use crate::multimap::{
    lemma_mm_append_string_view, mm_append, mm_get, mm_string_view, MultiMap,
};
use crate::parser::parse_url_encoded_spec;
use crate::scan::{bytes_range, find_byte, find_sub, find_subslice, lemma_find_sub_characterization};
use crate::text::{
    all_digits, bytes_to_string_lossy, dec_val, lossy_utf8, parse_usize_bytes, trim_bytes,
    trim_spec,
};

verus! {

/// A request's header fields: a multi-valued mapping from field name to the
/// values seen, in order of first appearance.
pub type Headers = MultiMap<String>;

/// Failures while extracting the request head from the socket.
#[derive(Debug)]
pub enum RequestHeaderError {
    /// The accumulated header bytes reached the configured limit before the
    /// blank line.
    MaxSizeExceed,
    /// The client disconnected (or the read failed) before the blank line.
    ClientDisconnected,
}

/// The header-terminating byte sequence, one blank line: `\r\n\r\n`.
pub open spec fn crlf_crlf() -> Seq<u8> {
    seq![13u8, 10u8, 13u8, 10u8]
}

/// One line break: `\r\n`.
pub open spec fn crlf() -> Seq<u8> {
    seq![13u8, 10u8]
}

/// Returns the position of the blank line ending the request head, if the
/// buffer holds one.
pub fn contains_full_headers(buffer: &[u8]) -> (r: Option<usize>)
    ensures
        r matches Some(u) ==> find_sub(buffer@, crlf_crlf()) == Some(u as int),
        r is None ==> find_sub(buffer@, crlf_crlf()) is None,
{
    let mut needle: Vec<u8> = Vec::new();
    needle.push(13);
    needle.push(10);
    needle.push(13);
    needle.push(10);
    proof {
        assert(needle@ =~= crlf_crlf());
    }
    find_subslice(buffer, needle.as_slice())
}

/// What one more chunk of socket bytes makes of the request head.
pub enum HeaderProgress {
    /// The blank line has not appeared yet; more bytes are needed.
    NeedMore,
    /// The accumulated header bytes reached the size limit first.
    TooLarge,
    /// The head is complete: the bytes before the blank line, and the body
    /// bytes that were read past it.
    Done(Vec<u8>, Vec<u8>),
}

/// Accumulates socket reads until the `\r\n\r\n` that ends the request
/// head, without over-reading decisions depending on how the stream was
/// chunked: the scan always covers the whole accumulated buffer, so a
/// terminator straddling two reads is found.
pub struct HeaderExtractor {
    pub buf: Vec<u8>,
    pub max_size: usize,
}

impl HeaderExtractor {
    /// Starts with an empty buffer.
    pub fn new(max_size: usize) -> (r: HeaderExtractor)
        ensures
            r.buf@ == Seq::<u8>::empty(),
            r.max_size == max_size,
    {
        HeaderExtractor { buf: Vec::new(), max_size }
    }

    /// Feeds one chunk.  Writing `all` for every byte seen so far: if `all`
    /// holds a blank line at `i`, the head is `all[..i]` and the leftover
    /// body is `all[i + 4..]`, unless the head reaches the size limit; with
    /// no blank line yet, the outcome is `TooLarge` as soon as any later
    /// terminator would make the head reach the limit, and `NeedMore`
    /// otherwise.
    pub fn push_chunk(&mut self, chunk: &[u8]) -> (r: HeaderProgress)
        ensures
            ({
                let all = old(self).buf@ + chunk@;
                match find_sub(all, crlf_crlf()) {
                    Some(i) => {
                        if i >= old(self).max_size {
                            r is TooLarge
                        } else {
                            r matches HeaderProgress::Done(h, l) && h@ == all.take(i) && l@
                                == all.skip(i + 4)
                        }
                    },
                    None => {
                        if all.len() >= old(self).max_size + 3 {
                            r is TooLarge
                        } else {
                            r is NeedMore && final(self).buf@ == all && final(self).max_size
                                == old(self).max_size
                        }
                    },
                }
            }),
    {
        let ghost all = self.buf@ + chunk@;
        self.buf.extend_from_slice(chunk);
        proof {
            assert(self.buf@ == all);
        }
        match contains_full_headers(self.buf.as_slice()) {
            Some(i) => {
                proof {
                    lemma_find_sub_characterization(all, crlf_crlf());
                }
                if i >= self.max_size {
                    HeaderProgress::TooLarge
                } else {
                    let n = self.buf.len();
                    let head = bytes_range(self.buf.as_slice(), 0, i);
                    let leftover = bytes_range(self.buf.as_slice(), i + 4, n);
                    proof {
                        assert(head@ =~= all.take(i as int));
                        assert(leftover@ =~= all.skip(i + 4));
                    }
                    HeaderProgress::Done(head, leftover)
                }
            },
            None => {
                let n = self.buf.len();
                if n >= 3 && n - 3 >= self.max_size {
                    HeaderProgress::TooLarge
                } else {
                    HeaderProgress::NeedMore
                }
            },
        }
    }
}

/// What one header line means: name and value around the first `:`, both
/// trimmed of ASCII whitespace; a line without `:` means nothing.
pub open spec fn parse_header_spec(b: Seq<u8>) -> Option<(Seq<char>, Seq<char>)> {
    match find_sub(b, seq![58u8]) {
        Some(i) => Some(
            (lossy_utf8(trim_spec(b.take(i))), lossy_utf8(trim_spec(b.skip(i + 1)))),
        ),
        None => None,
    }
}

/// Splits a header line into its name and value at the first `:`, trimming
/// both sides; returns nothing for a line without `:`.
pub fn parse_header(line: &str) -> (r: Option<(String, String)>)
    ensures
        ({
            let spec = parse_header_spec(encode_utf8(line@));
            match r {
                Some((k, v)) => spec matches Some(p) && k@ == p.0 && v@ == p.1,
                None => spec is None,
            }
        }),
{
    let bytes = line.as_bytes();
    let n = bytes.len();
    match find_byte(bytes, 58) {
        Some(i) => {
            proof {
                lemma_find_sub_characterization(bytes@, seq![58u8]);
            }
            let name_b = bytes_range(bytes, 0, i);
            let value_b = bytes_range(bytes, i + 1, n);
            proof {
                assert(name_b@ =~= bytes@.take(i as int));
                assert(value_b@ =~= bytes@.skip(i + 1));
            }
            let name_t = trim_bytes(name_b.as_slice());
            let value_t = trim_bytes(value_b.as_slice());
            let name = bytes_to_string_lossy(name_t.as_slice());
            let value = bytes_to_string_lossy(value_t.as_slice());
            Some((name, value))
        },
        None => None,
    }
}

/// One header line folded into the header mapping.
pub open spec fn header_line_into(
    l: Seq<u8>,
    m: Seq<(Seq<char>, Seq<Seq<char>>)>,
) -> Seq<(Seq<char>, Seq<Seq<char>>)> {
    match parse_header_spec(l) {
        Some(p) => mm_append(m, p.0, p.1),
        None => m,
    }
}

/// The `\r\n`-separated lines of `b` folded into the header mapping in
/// order.
pub open spec fn fold_header_lines(
    b: Seq<u8>,
    m: Seq<(Seq<char>, Seq<Seq<char>>)>,
) -> Seq<(Seq<char>, Seq<Seq<char>>)>
    decreases b.len(),
{
    match find_sub(b, crlf()) {
        Some(i) => if 0 <= i && i + 2 <= b.len() {
            fold_header_lines(b.skip(i + 2), header_line_into(b.take(i), m))
        } else {
            m
        },
        None => header_line_into(b, m),
    }
}

/// What a complete header block parses to: the first line as the request
/// start line, and every following line folded into the header mapping.
pub open spec fn parse_raw_headers_spec(b: Seq<u8>) -> (Seq<char>, Seq<(Seq<char>, Seq<Seq<char>>)>) {
    match find_sub(b, crlf()) {
        Some(i) => (
            lossy_utf8(b.take(i)),
            fold_header_lines(b.skip(i + 2), Seq::empty()),
        ),
        None => (lossy_utf8(b), Seq::empty()),
    }
}

/// The bytes of the blank line terminator, for searching.
pub fn crlf_crlf_needle() -> (r: Vec<u8>)
    ensures
        r@ == crlf_crlf(),
{
    let mut needle: Vec<u8> = Vec::new();
    needle.push(13);
    needle.push(10);
    needle.push(13);
    needle.push(10);
    proof {
        assert(needle@ =~= crlf_crlf());
    }
    needle
}

/// The bytes of one line break, for searching.
pub fn crlf_needle_pub() -> (r: Vec<u8>)
    ensures
        r@ == crlf(),
{
    crlf_needle()
}

fn crlf_needle() -> (r: Vec<u8>)
    ensures
        r@ == crlf(),
{
    let mut needle: Vec<u8> = Vec::new();
    needle.push(13);
    needle.push(10);
    proof {
        assert(needle@ =~= crlf());
    }
    needle
}

fn header_line_into_exec(line: &[u8], headers: &mut Headers)
    ensures
        mm_string_view(final(headers).entries()) == header_line_into(
            line@,
            mm_string_view(old(headers).entries()),
        ),
{
    let n = line.len();
    match find_byte(line, 58) {
        Some(i) => {
            proof {
                lemma_find_sub_characterization(line@, seq![58u8]);
            }
            let name_b = bytes_range(line, 0, i);
            let value_b = bytes_range(line, i + 1, n);
            proof {
                assert(name_b@ =~= line@.take(i as int));
                assert(value_b@ =~= line@.skip(i + 1));
            }
            let name_t = trim_bytes(name_b.as_slice());
            let value_t = trim_bytes(value_b.as_slice());
            let name = bytes_to_string_lossy(name_t.as_slice());
            let value = bytes_to_string_lossy(value_t.as_slice());
            proof {
                lemma_mm_append_string_view(headers.entries(), name@, value);
            }
            headers.append(name, value);
        },
        None => {},
    }
}

/// Splits a complete header block into the request start line and the
/// mapping of header fields.
pub fn parse_raw_headers(block: &[u8]) -> (r: (String, Headers))
    ensures
        ({
            let spec = parse_raw_headers_spec(block@);
            r.0@ == spec.0 && mm_string_view(r.1.entries()) == spec.1
        }),
{
    let needle = crlf_needle();
    let n = block.len();
    let mut headers: Headers = MultiMap::new();
    proof {
        assert(mm_string_view(headers.entries()) =~= Seq::<(Seq<char>, Seq<Seq<char>>)>::empty());
    }
    match find_subslice(block, needle.as_slice()) {
        Some(first_end) => {
            proof {
                lemma_find_sub_characterization(block@, crlf());
            }
            let start_b = bytes_range(block, 0, first_end);
            let start_line = bytes_to_string_lossy(start_b.as_slice());
            proof {
                assert(start_b@ =~= block@.take(first_end as int));
            }
            let mut pos: usize = first_end + 2;
            let ghost rest0 = block@.skip(first_end + 2);
            proof {
                assert(block@.skip(pos as int) == rest0);
            }
            loop
                invariant
                    0 <= pos <= block@.len(),
                    n == block@.len(),
                    needle@ == crlf(),
                    find_sub(block@, crlf()) == Some(first_end as int),
                    rest0 == block@.skip(first_end + 2),
                    start_line@ == lossy_utf8(block@.take(first_end as int)),
                    fold_header_lines(rest0, Seq::empty()) == fold_header_lines(
                        block@.skip(pos as int),
                        mm_string_view(headers.entries()),
                    ),
                decreases block@.len() - pos,
            {
                let rem = bytes_range(block, pos, n);
                proof {
                    assert(rem@ =~= block@.skip(pos as int));
                }
                match find_subslice(rem.as_slice(), needle.as_slice()) {
                    Some(i) => {
                        proof {
                            lemma_find_sub_characterization(rem@, crlf());
                        }
                        let line = bytes_range(rem.as_slice(), 0, i);
                        proof {
                            assert(line@ =~= rem@.take(i as int));
                        }
                        header_line_into_exec(line.as_slice(), &mut headers);
                        proof {
                            assert(block@.skip(pos + i + 2) =~= rem@.skip(i + 2));
                        }
                        pos = pos + i + 2;
                    },
                    None => {
                        header_line_into_exec(rem.as_slice(), &mut headers);
                        return (start_line, headers);
                    },
                }
            }
        },
        None => {
            let start_line = bytes_to_string_lossy(block);
            (start_line, headers)
        },
    }
}

/// The declared `Content-Length`, when the header's first value is a
/// decimal number that fits in `usize`.
pub open spec fn content_length_spec(m: Seq<(Seq<char>, Seq<Seq<char>>)>) -> Option<int> {
    match crate::multimap::first_value(m, "Content-Length"@) {
        Some(v) => {
            let vb = encode_utf8(v);
            if vb.len() > 0 && all_digits(vb) && dec_val(vb) <= usize::MAX {
                Some(dec_val(vb))
            } else {
                None
            }
        },
        None => None,
    }
}

/// Returns the declared content length, if a well-formed `Content-Length`
/// header is present.  A missing, empty, non-numeric or oversized value
/// counts as absent.
pub fn content_length(headers: &Headers) -> (r: Option<usize>)
    ensures
        r matches Some(u) ==> content_length_spec(mm_string_view(headers.entries())) == Some(
            u as int,
        ),
        r is None ==> content_length_spec(mm_string_view(headers.entries())) is None,
{
    match headers.first("Content-Length") {
        Some(value) => parse_usize_bytes(value.as_str().as_bytes()),
        None => None,
    }
}

/// Returns the value of the `Connection` header, if present.
pub fn connection_type(headers: &Headers) -> (r: Option<String>)
    ensures
        match crate::multimap::first_value(mm_string_view(headers.entries()), "Connection"@) {
            Some(v) => r matches Some(s) && s@ == v,
            None => r is None,
        },
{
    match headers.first("Connection") {
        Some(value) => Some(value.clone()),
        None => None,
    }
}

/// Returns the value of the `Host` header, if present.
pub fn host(headers: &Headers) -> (r: Option<String>)
    ensures
        match crate::multimap::first_value(mm_string_view(headers.entries()), "Host"@) {
            Some(v) => r matches Some(s) && s@ == v,
            None => r is None,
        },
{
    match headers.first("Host") {
        Some(value) => Some(value.clone()),
        None => None,
    }
}

/// Returns the value of the `Content-Type` header, if present.
pub fn extract_content_type(headers: &Headers) -> (r: Option<String>)
    ensures
        match crate::multimap::first_value(mm_string_view(headers.entries()), "Content-Type"@) {
            Some(v) => r matches Some(s) && s@ == v,
            None => r is None,
        },
{
    match headers.first("Content-Type") {
        Some(value) => Some(value.clone()),
        None => None,
    }
}

/// Index of the last occurrence of `x` in `b`, if any.
pub open spec fn find_last(b: Seq<u8>, x: u8) -> Option<int>
    decreases b.len(),
{
    if b.len() == 0 {
        None
    } else if b[b.len() - 1] == x {
        Some(b.len() - 1)
    } else {
        find_last(b.take(b.len() - 1), x)
    }
}

/// `find_last` returns exactly the last occurrence.
pub proof fn lemma_find_last_characterization(b: Seq<u8>, x: u8)
    ensures
        match find_last(b, x) {
            Some(i) => 0 <= i < b.len() && b[i] == x && (forall|k: int|
                i < k < b.len() ==> b[k] != x),
            None => forall|k: int| 0 <= k < b.len() ==> b[k] != x,
        },
    decreases b.len(),
{
    if b.len() > 0 && b[b.len() - 1] != x {
        lemma_find_last_characterization(b.take(b.len() - 1), x);
        let t = b.take(b.len() - 1);
        match find_last(t, x) {
            Some(i) => {
                assert(t[i] == b[i]);
                assert forall|k: int| i < k < b.len() implies b[k] != x by {
                    if k < b.len() - 1 {
                        assert(t[k] != x);
                    }
                }
            },
            None => {
                assert forall|k: int| 0 <= k < b.len() implies b[k] != x by {
                    if k < b.len() - 1 {
                        assert(t[k] != x);
                    }
                }
            },
        }
    }
}

/// The last occurrence determines `find_last`.
pub proof fn lemma_find_last_from_match(b: Seq<u8>, x: u8, i: int)
    requires
        0 <= i < b.len(),
        b[i] == x,
        forall|k: int| i < k < b.len() ==> b[k] != x,
    ensures
        find_last(b, x) == Some(i),
{
    lemma_find_last_characterization(b, x);
    match find_last(b, x) {
        Some(j) => {
            if j < i {
                assert(b[i] != x);
            }
            if i < j {
                assert(b[j] != x);
            }
        },
        None => {
            assert(b[i] != x);
        },
    }
}

/// Returns the index of the last occurrence of `x` in `h`.
pub fn find_last_byte(h: &[u8], x: u8) -> (r: Option<usize>)
    ensures
        r matches Some(u) ==> find_last(h@, x) == Some(u as int),
        r is None ==> find_last(h@, x) is None,
{
    let n = h.len();
    let mut i: usize = n;
    while i > 0
        invariant
            0 <= i <= h@.len(),
            n == h@.len(),
            forall|k: int| i <= k < h@.len() ==> h@[k] != x,
        decreases i,
    {
        if h[i - 1] == x {
            proof {
                lemma_find_last_from_match(h@, x, i - 1);
            }
            return Some(i - 1);
        }
        i = i - 1;
    }
    proof {
        lemma_find_last_characterization(h@, x);
        match find_last(h@, x) {
            Some(j) => {
                assert(h@[j] != x);
            },
            None => {},
        }
    }
    None
}

/// The method and raw path of a request line of the shape
/// `METHOD SP RAW-PATH SP VERSION`: the line is split at its last two
/// spaces, and all three segments must be non-empty.
pub open spec fn parse_request_line_spec(b: Seq<u8>) -> Option<(Seq<char>, Seq<char>)> {
    match find_last(b, 32) {
        Some(j) => match find_last(b.take(j), 32) {
            Some(i) => if i >= 1 && j - i >= 2 && b.len() - j >= 2 {
                Some((lossy_utf8(b.take(i)), lossy_utf8(b.subrange(i + 1, j))))
            } else {
                None
            },
            None => None,
        },
        None => None,
    }
}

/// Returns the request method and raw path from the request line, if the
/// line has the shape `METHOD SP RAW-PATH SP VERSION` with non-empty parts.
pub fn parse_request_method_header(line: &str) -> (r: Option<(String, String)>)
    ensures
        ({
            let spec = parse_request_line_spec(encode_utf8(line@));
            match r {
                Some((m, p)) => spec matches Some(q) && m@ == q.0 && p@ == q.1,
                None => spec is None,
            }
        }),
{
    let bytes = line.as_bytes();
    let n = bytes.len();
    match find_last_byte(bytes, 32) {
        Some(j) => {
            proof {
                lemma_find_last_characterization(bytes@, 32);
            }
            let prefix = bytes_range(bytes, 0, j);
            proof {
                assert(prefix@ =~= bytes@.take(j as int));
            }
            match find_last_byte(prefix.as_slice(), 32) {
                Some(i) => {
                    proof {
                        lemma_find_last_characterization(prefix@, 32);
                    }
                    if i >= 1 && j - i >= 2 && n - j >= 2 {
                        let method_b = bytes_range(bytes, 0, i);
                        let path_b = bytes_range(bytes, i + 1, j);
                        proof {
                            assert(method_b@ =~= bytes@.take(i as int));
                        }
                        let method = bytes_to_string_lossy(method_b.as_slice());
                        let path = bytes_to_string_lossy(path_b.as_slice());
                        Some((method, path))
                    } else {
                        None
                    }
                },
                None => None,
            }
        },
        None => None,
    }
}

/// The query parameters encoded in a raw path: the url-encoded mapping of
/// everything after the first `?`, or an empty mapping when there is no
/// `?` or nothing follows it.
pub open spec fn query_params_spec(s: Seq<char>) -> Seq<(Seq<char>, Seq<Seq<char>>)> {
    let b = encode_utf8(s);
    match find_sub(b, seq![63u8]) {
        Some(i) => if i == b.len() - 1 {
            Seq::empty()
        } else {
            parse_url_encoded_spec(b.skip(i + 1))
        },
        None => Seq::empty(),
    }
}

/// Returns the map of url-encoded query parameters of a raw path such as
/// `/search?name=John&age=22`.
pub fn query_params_from_raw(raw_path: &String) -> (r: MultiMap<String>)
    ensures
        mm_string_view(r.entries()) == query_params_spec(raw_path@),
{
    let bytes = raw_path.as_str().as_bytes();
    let n = bytes.len();
    match find_byte(bytes, 63) {
        Some(i) => {
            proof {
                lemma_find_sub_characterization(bytes@, seq![63u8]);
            }
            if i + 1 == n {
                let r: MultiMap<String> = MultiMap::new();
                proof {
                    assert(mm_string_view(r.entries()) =~= Seq::<(
                        Seq<char>,
                        Seq<Seq<char>>,
                    )>::empty());
                }
                r
            } else {
                let suffix = bytes_range(bytes, i + 1, n);
                proof {
                    assert(suffix@ =~= bytes@.skip(i + 1));
                }
                crate::parser::parse_url_encoded_bytes(suffix.as_slice())
            }
        },
        None => {
            let r: MultiMap<String> = MultiMap::new();
            proof {
                assert(mm_string_view(r.entries()) =~= Seq::<(Seq<char>, Seq<Seq<char>>)>::empty());
            }
            r
        },
    }
}

} // verus!
