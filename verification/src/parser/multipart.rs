//! Streaming `multipart/form-data` decoding: a boundary-matching state
//! machine over a sliding byte buffer fed by arbitrarily-sized reads.
//!
//! Writing `B` for the advertised boundary, a body is `--B\r\n`, then for
//! each part a header block ended by a blank line and the part's content
//! ended by `\r\n--B`, with `\r\n` after the separator before a further
//! part and `--\r\n` after the separator of the last part.  File parts
//! (those whose `Content-Disposition` carries a `filename`) are spooled to
//! temporary files; value parts are kept in memory.  The parsed outcome is
//! a function of the concatenated bytes alone, however the reads were
//! chunked.

use vstd::prelude::*;
use crate::multimap::{first_value, mm_get, mm_string_view, MultiMap};
use crate::scan::{
    bytes_range, find_byte, find_sub, find_subslice, is_match_at,
    lemma_find_sub_characterization, lemma_find_sub_from_first_match, lemma_find_sub_from_no_match,
    lemma_match_in_window, starts_with,
};
use crate::spool::{file_bytes, file_cursor, SpoolFile};
use crate::text::{
    bytes_to_string_lossy, eq_ignore_ascii_case, eq_ignore_ascii_case_spec, lossy_utf8,
    lower_seq, trim_bytes, trim_spec,
};

verus! {

/// Failures while decoding a multipart body.
#[derive(Debug)]
pub enum MultipartFormDataError {
    /// The request body is not well-formed multipart/form-data.
    InvalidMultiPart(&'static str),
    /// The request could not be parsed.
    ParsingError(&'static str),
    /// A part's header block is larger than the configured limit.
    HeaderSizeExceed(&'static str),
    /// The request body is larger than the configured limit.
    MaxBodySizeExceed(&'static str),
    /// A part's content is larger than the limit set for its field.
    MaxFieldSizeExceed(String, &'static str),
    /// More data was needed than the body holds.
    BodyReadEnd,
    /// Any other failure.
    Others(&'static str),
}

/// Size limit for one form field.
pub struct FormPartLimit {
    pub max_size: Option<usize>,
    pub content_type: Option<String>,
}

/// Limits on a multipart body: overall size, per-part header size, and
/// per-field content sizes.
pub struct Limits {
    pub max_body_size: Option<usize>,
    pub max_header_size: Option<usize>,
    pub form_part_limits: MultiMap<FormPartLimit>,
}

impl Limits {
    /// No limits at all.
    pub fn none() -> (r: Limits)
        ensures
            r.max_body_size is None,
            r.max_header_size is None,
            r.form_part_limits.entries().len() == 0,
    {
        Limits {
            max_body_size: None,
            max_header_size: None,
            form_part_limits: MultiMap::new(),
        }
    }

    /// The size limit configured for the field named `name`, if one is
    /// set.
    pub open spec fn field_limit(&self, name: Seq<char>) -> Option<int> {
        field_limit_of(self.form_part_limits.entries(), name)
    }

    /// The per-part header limit as a plain number.
    pub open spec fn max_header_int(&self) -> Option<int> {
        match self.max_header_size {
            Some(m) => Some(m as int),
            None => None,
        }
    }
}

/// The size limit the per-field table `fl` sets for the field named
/// `name`, if one is set.
pub open spec fn field_limit_of(
    fl: Seq<(Seq<char>, Seq<FormPartLimit>)>,
    name: Seq<char>,
) -> Option<int> {
    match mm_get(fl, name) {
        Some(ls) => if ls.len() > 0 {
            match ls[0].max_size {
                Some(m) => Some(m as int),
                None => None,
            }
        } else {
            None
        },
        None => None,
    }
}

/// A source of body bytes, read either in chunks of unspecified size or in
/// exact amounts.  `remaining` is the sequence of bytes the source still
/// holds; a chunk is always a non-empty prefix of it, and reading past the
/// end fails with `BodyReadEnd`.
pub trait StreamReader: Sized {
    spec fn remaining(&self) -> Seq<u8>;

    fn get_chunk(&mut self) -> (r: Result<Vec<u8>, MultipartFormDataError>)
        ensures
            old(self).remaining().len() == 0 ==> (r matches Err(e) && e is BodyReadEnd)
                && final(self).remaining() == old(self).remaining(),
            old(self).remaining().len() > 0 ==> (r matches Ok(c) && c@.len() > 0 && c@.len()
                <= old(self).remaining().len() && c@ == old(self).remaining().take(
                c@.len() as int,
            ) && final(self).remaining() == old(self).remaining().skip(c@.len() as int)),
    ;

    fn get_exact(&mut self, size: usize) -> (r: Result<Vec<u8>, MultipartFormDataError>)
        ensures
            size <= old(self).remaining().len() ==> (r matches Ok(c) && c@ == old(
                self,
            ).remaining().take(size as int)) && final(self).remaining() == old(
                self,
            ).remaining().skip(size as int),
            size > old(self).remaining().len() ==> (r matches Err(e) && e is BodyReadEnd)
                && final(self).remaining() == old(self).remaining(),
    ;
}

/// An in-memory byte source: reads walk through `data`, with chunk sizes
/// taken from the `sizes` schedule (falling back to 1 KiB), so that tests
/// can replay any chunking of a body.
pub struct ChunkReader {
    pub data: Vec<u8>,
    pub pos: usize,
    pub sizes: Vec<usize>,
    pub next: usize,
}

impl ChunkReader {
    /// A reader over `data` from the beginning, with the given chunk-size
    /// schedule.
    pub fn new(data: Vec<u8>, sizes: Vec<usize>) -> (r: ChunkReader)
        ensures
            r.data@ == data@,
            r.pos == 0,
    {
        ChunkReader { data, pos: 0, sizes, next: 0 }
    }

    /// The bytes not yet handed out.
    pub open spec fn remaining_bytes(&self) -> Seq<u8> {
        if self.pos <= self.data@.len() {
            self.data@.skip(self.pos as int)
        } else {
            Seq::empty()
        }
    }

    fn chunk_size(&mut self) -> (r: usize)
        ensures
            r >= 1,
            final(self).data == old(self).data,
            final(self).pos == old(self).pos,
    {
        if self.sizes.len() == 0 {
            1024
        } else {
            let nx = self.next % self.sizes.len();
            let s = self.sizes[nx];
            self.next = if nx + 1 >= self.sizes.len() {
                0
            } else {
                nx + 1
            };
            if s == 0 {
                1
            } else {
                s
            }
        }
    }

    pub(crate) fn take_chunk(&mut self) -> (r: Result<Vec<u8>, MultipartFormDataError>)
        ensures
            old(self).remaining_bytes().len() == 0 ==> (r matches Err(e) && e is BodyReadEnd)
                && final(self).remaining_bytes() == old(self).remaining_bytes(),
            old(self).remaining_bytes().len() > 0 ==> (r matches Ok(c) && c@.len() > 0
                && c@.len() <= old(self).remaining_bytes().len() && c@ == old(
                self,
            ).remaining_bytes().take(c@.len() as int) && final(self).remaining_bytes() == old(
                self,
            ).remaining_bytes().skip(c@.len() as int)),
    {
        let n = self.data.len();
        if self.pos >= n {
            return Err(MultipartFormDataError::BodyReadEnd);
        }
        let want = self.chunk_size();
        let avail = n - self.pos;
        let take = if want < avail {
            want
        } else {
            avail
        };
        let chunk = bytes_range(self.data.as_slice(), self.pos, self.pos + take);
        proof {
            assert(chunk@ =~= old(self).remaining_bytes().take(take as int));
        }
        self.pos = self.pos + take;
        proof {
            assert(self.remaining_bytes() =~= old(self).remaining_bytes().skip(take as int));
        }
        Ok(chunk)
    }

    pub(crate) fn take_exact(&mut self, size: usize) -> (r: Result<Vec<u8>, MultipartFormDataError>)
        ensures
            size <= old(self).remaining_bytes().len() ==> (r matches Ok(c) && c@ == old(
                self,
            ).remaining_bytes().take(size as int)) && final(self).remaining_bytes() == old(
                self,
            ).remaining_bytes().skip(size as int),
            size > old(self).remaining_bytes().len() ==> (r matches Err(e) && e is BodyReadEnd)
                && final(self).remaining_bytes() == old(self).remaining_bytes(),
    {
        let n = self.data.len();
        if size == 0 {
            let r: Vec<u8> = Vec::new();
            proof {
                assert(r@ =~= old(self).remaining_bytes().take(0));
                assert(self.remaining_bytes() =~= old(self).remaining_bytes().skip(0));
            }
            return Ok(r);
        }
        if self.pos <= n && size <= n - self.pos {
            let chunk = bytes_range(self.data.as_slice(), self.pos, self.pos + size);
            proof {
                assert(chunk@ =~= old(self).remaining_bytes().take(size as int));
            }
            self.pos = self.pos + size;
            proof {
                assert(self.remaining_bytes() =~= old(self).remaining_bytes().skip(size as int));
            }
            Ok(chunk)
        } else {
            Err(MultipartFormDataError::BodyReadEnd)
        }
    }
}

impl StreamReader for ChunkReader {
    open spec fn remaining(&self) -> Seq<u8> {
        self.remaining_bytes()
    }

    fn get_chunk(&mut self) -> (r: Result<Vec<u8>, MultipartFormDataError>) {
        self.take_chunk()
    }

    fn get_exact(&mut self, size: usize) -> (r: Result<Vec<u8>, MultipartFormDataError>) {
        self.take_exact(size)
    }
}

/// The `boundary=` parameter prefix, as bytes.
pub open spec fn boundary_prefix() -> Seq<u8> {
    seq![98u8, 111u8, 117u8, 110u8, 100u8, 97u8, 114u8, 121u8, 61u8]
}

/// The boundary declared by one `;`-separated parameter token, if this
/// token declares one.
pub open spec fn token_boundary(t: Seq<u8>) -> Option<Seq<u8>> {
    if t.len() >= 9 && t.take(9) == boundary_prefix() {
        Some(t.skip(9))
    } else {
        None
    }
}

/// The boundary declared by the `;`-separated parameter tokens: the
/// first token that, after trimming, starts with `boundary=`.
pub open spec fn boundary_params_spec(b: Seq<u8>) -> Option<Seq<u8>>
    decreases b.len(),
{
    match find_sub(b, seq![59u8]) {
        Some(i) => if 0 <= i && i + 1 <= b.len() {
            match token_boundary(trim_spec(b.take(i))) {
                Some(x) => Some(x),
                None => boundary_params_spec(b.skip(i + 1)),
            }
        } else {
            None
        },
        None => token_boundary(trim_spec(b)),
    }
}

/// The boundary declared in a `Content-Type` value: the media type
/// before the first `;` is not a parameter, and every parameter after it
/// is scanned for `boundary=`.  A value without parameters declares no
/// boundary.
pub open spec fn extract_boundary_spec(b: Seq<u8>) -> Option<Seq<u8>> {
    match find_sub(b, seq![59u8]) {
        Some(i) => if 0 <= i && i + 1 <= b.len() {
            boundary_params_spec(b.skip(i + 1))
        } else {
            None
        },
        None => None,
    }
}

fn boundary_prefix_vec() -> (r: Vec<u8>)
    ensures
        r@ == boundary_prefix(),
{
    let mut v: Vec<u8> = Vec::new();
    v.push(98);
    v.push(111);
    v.push(117);
    v.push(110);
    v.push(100);
    v.push(97);
    v.push(114);
    v.push(121);
    v.push(61);
    proof {
        assert(v@ =~= boundary_prefix());
    }
    v
}

fn token_boundary_exec(t: &[u8]) -> (r: Option<String>)
    ensures
        match token_boundary(t@) {
            Some(x) => r matches Some(s) && s@ == lossy_utf8(x),
            None => r is None,
        },
{
    let prefix = boundary_prefix_vec();
    if starts_with(t, prefix.as_slice()) {
        let n = t.len();
        let rest = bytes_range(t, 9, n);
        proof {
            assert(rest@ =~= t@.skip(9));
        }
        Some(bytes_to_string_lossy(rest.as_slice()))
    } else {
        None
    }
}

/// Extracts the multipart boundary from a `Content-Type` value such as
/// `multipart/form-data; boundary=abc`: the first `;`-separated parameter
/// starting with `boundary=` after trimming, if any.
pub fn extract_boundary(content_type: &String) -> (r: Option<String>)
    ensures
        match extract_boundary_spec(vstd::utf8::encode_utf8(content_type@)) {
            Some(x) => r matches Some(s) && s@ == lossy_utf8(x),
            None => r is None,
        },
{
    let bytes = content_type.as_str().as_bytes();
    let ghost full = bytes@;
    let n = bytes.len();
    // The media type before the first parameter separator is not a
    // parameter and declares no boundary.
    let first_sep = match find_byte(bytes, 59) {
        Some(i) => i,
        None => {
            return None;
        },
    };
    proof {
        lemma_find_sub_characterization(full, seq![59u8]);
    }
    let mut start: usize = first_sep + 1;
    loop
        invariant
            0 <= start <= full.len(),
            n == full.len(),
            bytes@ == full,
            full == vstd::utf8::encode_utf8(content_type@),
            extract_boundary_spec(full) == boundary_params_spec(full.skip(start as int)),
        decreases full.len() - start,
    {
        let rem = bytes_range(bytes, start, n);
        proof {
            assert(rem@ =~= full.skip(start as int));
        }
        match find_byte(rem.as_slice(), 59) {
            Some(i) => {
                proof {
                    lemma_find_sub_characterization(rem@, seq![59u8]);
                }
                let token_raw = bytes_range(rem.as_slice(), 0, i);
                proof {
                    assert(token_raw@ =~= rem@.take(i as int));
                }
                let token = trim_bytes(token_raw.as_slice());
                match token_boundary_exec(token.as_slice()) {
                    Some(s) => {
                        return Some(s);
                    },
                    None => {
                        proof {
                            assert(full.skip(start + i + 1) =~= rem@.skip(i + 1));
                        }
                        start = start + i + 1;
                    },
                }
            },
            None => {
                let token = trim_bytes(rem.as_slice());
                return token_boundary_exec(token.as_slice());
            },
        }
    }
}

/// One decoded part: metadata from its header block, and its content
/// either spooled to a temporary file (file parts) or held in memory
/// (value parts).
pub struct FormPart {
    pub name: Option<String>,
    pub filename: Option<String>,
    pub content_type: Option<String>,
    pub temp_file: Option<SpoolFile>,
    pub value: Option<Vec<u8>>,
}

/// Whether a further part follows or the body is complete.
#[derive(Debug)]
pub enum FormPartResult {
    CheckNext,
    BodyCompleted,
}

impl FormPart {
    /// A part with nothing set yet.
    pub fn empty() -> (r: FormPart)
        ensures
            r.name is None,
            r.filename is None,
            r.content_type is None,
            r.temp_file is None,
            r.value is None,
    {
        FormPart { name: None, filename: None, content_type: None, temp_file: None, value: None }
    }
}

/// The mathematical content of one part: header fields as text, and the
/// content bytes.
pub ghost struct PartModel {
    pub name: Option<Seq<char>>,
    pub filename: Option<Seq<char>>,
    pub content_type: Option<Seq<char>>,
    pub body: Seq<u8>,
}

/// A part with nothing set.
pub open spec fn empty_part_model() -> PartModel {
    PartModel { name: None, filename: None, content_type: None, body: Seq::empty() }
}

/// The view of an optional string.
pub open spec fn opt_view(o: Option<String>) -> Option<Seq<char>> {
    match o {
        Some(s) => Some(s@),
        None => None,
    }
}

/// The header fields a `FormPart` carries, with no content yet.
pub open spec fn header_model_of(p: FormPart) -> PartModel {
    PartModel {
        name: opt_view(p.name),
        filename: opt_view(p.filename),
        content_type: opt_view(p.content_type),
        body: Seq::empty(),
    }
}

/// A fully decoded `FormPart` carries the model's header fields and its
/// content: in memory for a value part, spooled and rewound for a file
/// part.
pub open spec fn part_models(p: FormPart, m: PartModel) -> bool {
    &&& opt_view(p.name) == m.name
    &&& opt_view(p.filename) == m.filename
    &&& opt_view(p.content_type) == m.content_type
    &&& (m.filename is Some ==> p.value is None && (p.temp_file matches Some(f) && file_bytes(f)
        == m.body && file_cursor(f) == 0))
    &&& (m.filename is None ==> p.temp_file is None && (p.value matches Some(v) && v@ == m.body))
}

/// An ASCII letter, digit or underscore: what an attribute name in a
/// `Content-Disposition` value is made of.
pub open spec fn is_word_byte(b: u8) -> bool {
    (48 <= b <= 57) || (65 <= b <= 90) || (97 <= b <= 122) || b == 95
}

/// Length of the run of word bytes immediately before position `e`.
pub open spec fn word_run_before(s: Seq<u8>, e: int) -> int
    decreases e,
{
    if 1 <= e <= s.len() && is_word_byte(s[e - 1]) {
        word_run_before(s, e - 1) + 1
    } else {
        0
    }
}

/// The attribute name bytes of `name`.
pub open spec fn name_attr() -> Seq<u8> {
    seq![110u8, 97u8, 109u8, 101u8]
}

/// The attribute name bytes of `filename`.
pub open spec fn filename_attr() -> Seq<u8> {
    seq![102u8, 105u8, 108u8, 101u8, 110u8, 97u8, 109u8, 101u8]
}

/// One `attribute="value"` pair applied to the part model: `name` and
/// `filename` are recorded (their bytes read as text), anything else is
/// ignored.
pub open spec fn apply_attr(attr: Seq<u8>, value: Seq<u8>, m: PartModel) -> PartModel {
    if attr == name_attr() {
        PartModel { name: Some(lossy_utf8(value)), ..m }
    } else if attr == filename_attr() {
        PartModel { filename: Some(lossy_utf8(value)), ..m }
    } else {
        m
    }
}

/// Scans `s` for `attribute="value"` pairs, left to right: at each `="`,
/// the attribute is the word run just before it and the value runs to the
/// next `"`; pairs follow one another after the closing quote.
pub open spec fn cd_attrs_spec(s: Seq<u8>, m: PartModel) -> PartModel
    decreases s.len(),
{
    match find_sub(s, seq![61u8, 34u8]) {
        Some(e) => if 0 <= e && e + 2 <= s.len() {
            let run = word_run_before(s, e);
            if run == 0 {
                cd_attrs_spec(s.skip(e + 1), m)
            } else {
                match find_sub(s.skip(e + 2), seq![34u8]) {
                    Some(q) => if 0 <= q && e + 2 + q + 1 <= s.len() {
                        cd_attrs_spec(
                            s.skip(e + 2 + q + 1),
                            apply_attr(s.subrange(e - run, e), s.subrange(e + 2, e + 2 + q), m),
                        )
                    } else {
                        m
                    },
                    None => m,
                }
            }
        } else {
            m
        },
        None => m,
    }
}

/// The bytes of the `form-data;` prefix that a `Content-Disposition`
/// value must carry.
pub open spec fn form_data_prefix() -> Seq<u8> {
    seq![102u8, 111u8, 114u8, 109u8, 45u8, 100u8, 97u8, 116u8, 97u8, 59u8]
}

/// What a `Content-Disposition` value contributes: nothing unless the
/// trimmed value starts with `form-data;`, else the attributes after that
/// prefix.
pub open spec fn parse_cd_spec(v: Seq<u8>, m: PartModel) -> PartModel {
    let vt = trim_spec(v);
    if vt.len() >= 10 && vt.take(10) == form_data_prefix() {
        cd_attrs_spec(trim_spec(vt.skip(10)), m)
    } else {
        m
    }
}

/// The bytes of `content-disposition`.
pub open spec fn cd_name() -> Seq<u8> {
    seq![
        99u8, 111u8, 110u8, 116u8, 101u8, 110u8, 116u8, 45u8, 100u8, 105u8, 115u8, 112u8, 111u8,
        115u8, 105u8, 116u8, 105u8, 111u8, 110u8,
    ]
}

/// The bytes of `content-type`.
pub open spec fn ct_name() -> Seq<u8> {
    seq![99u8, 111u8, 110u8, 116u8, 101u8, 110u8, 116u8, 45u8, 116u8, 121u8, 112u8, 101u8]
}

/// What one part-header line contributes to the model: the line is
/// trimmed; the header name before the first `:` is compared ignoring
/// ASCII case; `Content-Disposition` values feed the attribute scan and
/// `Content-Type` sets the content type to the segment up to the next
/// `:`, trimmed.  Anything else is ignored.
pub open spec fn part_header_line_spec(l: Seq<u8>, m: PartModel) -> PartModel {
    let lt = trim_spec(l);
    if lt.len() == 0 {
        m
    } else {
        match find_sub(lt, seq![58u8]) {
            Some(i) => {
                let hname = trim_spec(lt.take(i));
                let rest = lt.skip(i + 1);
                let seg = match find_sub(rest, seq![58u8]) {
                    Some(j) => rest.take(j),
                    None => rest,
                };
                let value = trim_spec(seg);
                if eq_ignore_ascii_case_spec(hname, cd_name()) {
                    parse_cd_spec(value, m)
                } else if eq_ignore_ascii_case_spec(hname, ct_name()) {
                    PartModel { content_type: Some(lossy_utf8(value)), ..m }
                } else {
                    m
                }
            },
            None => m,
        }
    }
}

/// The `\r\n`-separated lines of a header block folded into the model in
/// order.
pub open spec fn fold_part_lines(b: Seq<u8>, m: PartModel) -> PartModel
    decreases b.len(),
{
    match find_sub(b, crate::headers::crlf()) {
        Some(i) => if 0 <= i && i + 2 <= b.len() {
            fold_part_lines(b.skip(i + 2), part_header_line_spec(b.take(i), m))
        } else {
            m
        },
        None => part_header_line_spec(b, m),
    }
}

/// The part metadata a header block declares.
pub open spec fn part_header_spec(b: Seq<u8>) -> PartModel {
    fold_part_lines(b, empty_part_model())
}

/// `--B\r\n`, the sequence that opens the body and precedes each part's
/// header block.
pub open spec fn start_seq(b: Seq<u8>) -> Seq<u8> {
    seq![45u8, 45u8] + b + seq![13u8, 10u8]
}

/// `\r\n--B`, the separator seen at the end of a part's content.
pub open spec fn inter_seq(b: Seq<u8>) -> Seq<u8> {
    seq![13u8, 10u8, 45u8, 45u8] + b
}

/// `--\r\n`, what follows the separator after the final part.
pub open spec fn end_tail() -> Seq<u8> {
    seq![45u8, 45u8, 13u8, 10u8]
}

/// A trailing `\r\n` stripped from a part's content, when there is one.
pub open spec fn strip_crlf(c: Seq<u8>) -> Seq<u8> {
    if c.len() >= 2 && c[c.len() - 2] == 13 && c[c.len() - 1] == 10 {
        c.take(c.len() - 2)
    } else {
        c
    }
}

/// How one part's content section ends.
pub ghost enum SectionOutcome {
    /// The content, and the bytes after the `\r\n` that announces a
    /// further part.
    Next(Seq<u8>, Seq<u8>),
    /// The content of the final part.
    Last(Seq<u8>),
    /// The section is not well formed.
    Fail(SectionFail),
}

/// Why a content section fails.
pub ghost enum SectionFail {
    /// The content is larger than the field's limit.
    FieldSize,
    /// The bytes end before the section is complete.
    Truncated,
    /// After the separator there is neither `\r\n` nor `--\r\n`.
    BadTail,
}

/// What becomes of a part's content section: writing `f` for the bytes
/// after the part's header block, the content runs to the first
/// `\r\n--B`, an extra trailing `\r\n` is stripped, the field limit is
/// checked (against the unstripped length for file parts), and the four
/// bytes after the separator decide whether a further part follows.
pub open spec fn body_section_spec(
    f: Seq<u8>,
    b: Seq<u8>,
    limit: Option<int>,
    is_file: bool,
) -> SectionOutcome {
    let inter = inter_seq(b);
    match find_sub(f, inter) {
        Some(k) => {
            let body = strip_crlf(f.take(k));
            let counted: int = if is_file {
                k
            } else {
                body.len() as int
            };
            if limit matches Some(mx) && counted > mx {
                SectionOutcome::Fail(SectionFail::FieldSize)
            } else {
                let tail = f.skip(k + inter.len());
                if tail.len() < 4 {
                    SectionOutcome::Fail(SectionFail::Truncated)
                } else if tail.take(4) == end_tail() {
                    SectionOutcome::Last(body)
                } else if tail.take(2) == crate::headers::crlf() {
                    SectionOutcome::Next(body, tail.skip(2))
                } else {
                    SectionOutcome::Fail(SectionFail::BadTail)
                }
            }
        },
        None => {
            let flushed: int = if f.len() > inter.len() + 2 {
                f.len() - inter.len() - 2
            } else {
                0
            };
            if limit matches Some(mx) && flushed > mx {
                SectionOutcome::Fail(SectionFail::FieldSize)
            } else {
                SectionOutcome::Fail(SectionFail::Truncated)
            }
        },
    }
}

/// The limit that an optional per-field entry sets.
pub open spec fn opt_limit(l: Option<&FormPartLimit>) -> Option<int> {
    match l {
        Some(fl) => match fl.max_size {
            Some(m) => Some(m as int),
            None => None,
        },
        None => None,
    }
}

fn field_limit_exceeded(form_part_limit: Option<&FormPartLimit>, n: usize) -> (r: bool)
    ensures
        r == (opt_limit(form_part_limit) matches Some(mx) && n > mx),
{
    match form_part_limit {
        Some(l) => match l.max_size {
            Some(mx) => n > mx,
            None => false,
        },
        None => false,
    }
}

fn field_error(form_part: &FormPart, msg: &'static str) -> (r: MultipartFormDataError)
    requires
        form_part.name is Some,
    ensures
        r matches MultipartFormDataError::MaxFieldSizeExceed(nm, _) && nm@ == form_part.name->0@,
{
    match &form_part.name {
        Some(n) => MultipartFormDataError::MaxFieldSizeExceed(n.clone(), msg),
        None => {
            proof {
                assert(false);
            }
            MultipartFormDataError::BodyReadEnd
        },
    }
}

fn inter_needle(boundary: &String) -> (r: Vec<u8>)
    ensures
        r@ == inter_seq(vstd::utf8::encode_utf8(boundary@)),
{
    let mut v: Vec<u8> = Vec::new();
    v.push(13);
    v.push(10);
    v.push(45);
    v.push(45);
    v.extend_from_slice(boundary.as_str().as_bytes());
    proof {
        assert(v@ =~= inter_seq(vstd::utf8::encode_utf8(boundary@)));
    }
    v
}

fn end_tail_needle() -> (r: Vec<u8>)
    ensures
        r@ == end_tail(),
{
    let mut v: Vec<u8> = Vec::new();
    v.push(45);
    v.push(45);
    v.push(13);
    v.push(10);
    proof {
        assert(v@ =~= end_tail());
    }
    v
}

fn is_word_byte_exec(b: u8) -> (r: bool)
    ensures
        r == is_word_byte(b),
{
    (48 <= b && b <= 57) || (65 <= b && b <= 90) || (97 <= b && b <= 122) || b == 95
}

fn name_attr_vec() -> (r: Vec<u8>)
    ensures
        r@ == name_attr(),
{
    let mut v: Vec<u8> = Vec::new();
    v.push(110);
    v.push(97);
    v.push(109);
    v.push(101);
    proof {
        assert(v@ =~= name_attr());
    }
    v
}

fn filename_attr_vec() -> (r: Vec<u8>)
    ensures
        r@ == filename_attr(),
{
    let mut v: Vec<u8> = Vec::new();
    v.push(102);
    v.push(105);
    v.push(108);
    v.push(101);
    v.push(110);
    v.push(97);
    v.push(109);
    v.push(101);
    proof {
        assert(v@ =~= filename_attr());
    }
    v
}

fn cd_attrs_exec(s: &[u8], form_part: &mut FormPart)
    ensures
        final(form_part).temp_file == old(form_part).temp_file,
        final(form_part).value == old(form_part).value,
        header_model_of(*final(form_part)) == cd_attrs_spec(
            s@,
            header_model_of(*old(form_part)),
        ),
{
    let ghost full = s@;
    let n = s.len();
    let mut eq_quote: Vec<u8> = Vec::new();
    eq_quote.push(61);
    eq_quote.push(34);
    proof {
        assert(eq_quote@ =~= seq![61u8, 34u8]);
        assert(full.skip(0) =~= full);
    }
    let mut pos: usize = 0;
    loop
        invariant
            0 <= pos <= n,
            n == s@.len(),
            eq_quote@ == seq![61u8, 34u8],
            form_part.temp_file == old(form_part).temp_file,
            form_part.value == old(form_part).value,
            cd_attrs_spec(s@, header_model_of(*old(form_part))) == cd_attrs_spec(
                s@.skip(pos as int),
                header_model_of(*form_part),
            ),
        decreases n - pos,
    {
        let rem = bytes_range(s, pos, n);
        proof {
            assert(rem@ =~= s@.skip(pos as int));
        }
        match find_subslice(rem.as_slice(), eq_quote.as_slice()) {
            Some(e) => {
                proof {
                    lemma_find_sub_characterization(rem@, seq![61u8, 34u8]);
                }
                let mut run: usize = 0;
                while e - run > 0 && is_word_byte_exec(rem[e - run - 1])
                    invariant
                        0 <= run <= e <= rem@.len(),
                        word_run_before(rem@, e as int) == word_run_before(
                            rem@,
                            e - run,
                        ) + run,
                    decreases e - run,
                {
                    run = run + 1;
                }
                proof {
                    assert(word_run_before(rem@, e - run) == 0);
                    assert(word_run_before(rem@, e as int) == run);
                }
                if run == 0 {
                    proof {
                        assert(s@.skip(pos + e + 1) =~= rem@.skip(e + 1));
                    }
                    pos = pos + e + 1;
                } else {
                    let rem_len = rem.len();
                    let after = bytes_range(rem.as_slice(), e + 2, rem_len);
                    proof {
                        assert(after@ =~= rem@.skip(e + 2));
                    }
                    match find_byte(after.as_slice(), 34) {
                        Some(q) => {
                            proof {
                                lemma_find_sub_characterization(after@, seq![34u8]);
                            }
                            let attr = bytes_range(rem.as_slice(), e - run, e);
                            let val = bytes_range(rem.as_slice(), e + 2, e + 2 + q);
                            proof {
                                assert(attr@ =~= rem@.subrange(e - run, e as int));
                                assert(val@ =~= rem@.subrange(e + 2, e + 2 + q));
                            }
                            let name_n = name_attr_vec();
                            let filename_n = filename_attr_vec();
                            if crate::scan::bytes_eq(attr.as_slice(), name_n.as_slice()) {
                                form_part.name = Some(bytes_to_string_lossy(val.as_slice()));
                            } else if crate::scan::bytes_eq(
                                attr.as_slice(),
                                filename_n.as_slice(),
                            ) {
                                form_part.filename = Some(bytes_to_string_lossy(val.as_slice()));
                            }
                            proof {
                                assert(s@.skip(pos + e + 2 + q + 1) =~= rem@.skip(e + 2 + q + 1));
                            }
                            pos = pos + e + 2 + q + 1;
                        },
                        None => {
                            return ;
                        },
                    }
                }
            },
            None => {
                return ;
            },
        }
    }
}

fn parse_cd_bytes(v: &[u8], form_part: &mut FormPart)
    ensures
        final(form_part).temp_file == old(form_part).temp_file,
        final(form_part).value == old(form_part).value,
        header_model_of(*final(form_part)) == parse_cd_spec(
            v@,
            header_model_of(*old(form_part)),
        ),
{
    let vt = trim_bytes(v);
    let mut prefix: Vec<u8> = Vec::new();
    prefix.push(102);
    prefix.push(111);
    prefix.push(114);
    prefix.push(109);
    prefix.push(45);
    prefix.push(100);
    prefix.push(97);
    prefix.push(116);
    prefix.push(97);
    prefix.push(59);
    proof {
        assert(prefix@ =~= form_data_prefix());
    }
    if starts_with(vt.as_slice(), prefix.as_slice()) {
        let vt_len = vt.len();
        let rest = bytes_range(vt.as_slice(), 10, vt_len);
        proof {
            assert(rest@ =~= vt@.skip(10));
        }
        let rest_t = trim_bytes(rest.as_slice());
        cd_attrs_exec(rest_t.as_slice(), form_part);
    }
}

/// Reads a value part's content from the buffer and the reader into
/// memory: everything up to the `\r\n--B` separator, with a trailing
/// `\r\n` stripped, kept in the part's `value`; the buffer is left at the
/// bytes after the separator's tail.  Only the last few bytes of the
/// buffer are retained across reads, so the separator is found however
/// the reads are chunked.
#[verifier::rlimit(100)]
pub fn extract_form_value<T: StreamReader>(
    reader: &mut T,
    body_buffer: &mut Vec<u8>,
    boundary: &String,
    form_part: &mut FormPart,
    form_part_limit: Option<&FormPartLimit>,
) -> (r: Result<FormPartResult, MultipartFormDataError>)
    requires
        old(body_buffer)@.len() + old(reader).remaining().len() <= usize::MAX,
        opt_limit(form_part_limit) is Some ==> old(form_part).name is Some,
    ensures
        ({
            let f = old(body_buffer)@ + old(reader).remaining();
            let out = body_section_spec(
                f,
                vstd::utf8::encode_utf8(boundary@),
                opt_limit(form_part_limit),
                false,
            );
            match out {
                SectionOutcome::Next(body, rest) => {
                    &&& r matches Ok(fr) && fr is CheckNext
                    &&& final(form_part).value matches Some(v) && v@ == body
                    &&& final(form_part).name == old(form_part).name
                    &&& final(form_part).filename == old(form_part).filename
                    &&& final(form_part).content_type == old(form_part).content_type
                    &&& final(form_part).temp_file == old(form_part).temp_file
                    &&& final(body_buffer)@ + final(reader).remaining() == rest
                },
                SectionOutcome::Last(body) => {
                    &&& r matches Ok(fr) && fr is BodyCompleted
                    &&& final(form_part).value matches Some(v) && v@ == body
                    &&& final(form_part).name == old(form_part).name
                    &&& final(form_part).filename == old(form_part).filename
                    &&& final(form_part).content_type == old(form_part).content_type
                    &&& final(form_part).temp_file == old(form_part).temp_file
                },
                SectionOutcome::Fail(SectionFail::FieldSize) => r matches Err(e) && (
                e matches MultipartFormDataError::MaxFieldSizeExceed(nm, _) && nm@ == old(
                    form_part,
                ).name->0@),
                SectionOutcome::Fail(SectionFail::Truncated) => r matches Err(e)
                    && e is BodyReadEnd,
                SectionOutcome::Fail(SectionFail::BadTail) => r matches Err(e)
                    && e is ParsingError,
            }
        }),
{
    let ghost f = old(body_buffer)@ + old(reader).remaining();
    let ghost bb = vstd::utf8::encode_utf8(boundary@);
    let inter = inter_needle(boundary);
    let inter_len = inter.len();
    let mut value_buffer: Vec<u8> = Vec::new();
    let mut bytes_written: usize = 0;
    let ghost mut d: int = 0;
    proof {
        assert(f.take(0) =~= Seq::<u8>::empty());
        assert(body_buffer@ =~= f.subrange(0, body_buffer@.len() as int));
        assert(reader.remaining() =~= f.skip(body_buffer@.len() as int));
    }
    loop
        invariant
            inter@ == inter_seq(bb),
            bb == vstd::utf8::encode_utf8(boundary@),
            inter_len == inter@.len(),
            f == old(body_buffer)@ + old(reader).remaining(),
            f.len() <= usize::MAX,
            0 <= d,
            d + body_buffer@.len() + reader.remaining().len() == f.len(),
            value_buffer@ == f.take(d),
            body_buffer@ == f.subrange(d, d + body_buffer@.len()),
            reader.remaining() == f.skip(d + body_buffer@.len()),
            bytes_written == d,
            forall|j: int| 0 <= j < d ==> !is_match_at(f, inter@, j),
            d == 0 || (forall|j: int| 0 <= j < d + 3 ==> !is_match_at(f, inter@, j)),
            d == 0 || body_buffer@.len() >= inter_len + 2,
            opt_limit(form_part_limit) is Some ==> form_part.name is Some,
            *form_part == *old(form_part),
            opt_limit(form_part_limit) matches Some(mx) ==> d <= mx,
        decreases reader.remaining().len(),
    {
        let buf_len = body_buffer.len();
        let ghost m = d + buf_len;
        let ghost buf0 = body_buffer@;
        let ghost d0 = d;
        proof {
            assert(f.subrange(d, m) == buf0);
        }
        match find_subslice(body_buffer.as_slice(), inter.as_slice()) {
            Some(p) => {
                proof {
                    lemma_find_sub_characterization(buf0, inter@);
                    let k = d + p;
                    assert(is_match_at(f, inter@, k)) by {
                        lemma_match_in_window(f, inter@, d, m, k);
                    }
                    assert forall|j: int| 0 <= j < k implies !is_match_at(f, inter@, j) by {
                        if j >= d {
                            lemma_match_in_window(f, inter@, d, m, j);
                            assert(!is_match_at(buf0, inter@, j - d));
                        }
                    }
                    lemma_find_sub_from_first_match(f, inter@, k);
                }
                let ghost k = d + p;
                // Copy the content bytes before the separator, stripping a
                // trailing line break.
                let copy_end = if p >= 2 && body_buffer[p - 2] == 13 && body_buffer[p - 1] == 10 {
                    p - 2
                } else {
                    p
                };
                proof {
                    let content = f.take(k);
                    assert(content.len() == k);
                    if p >= 2 {
                        assert(content[k - 2] == buf0[p - 2]);
                        assert(content[k - 1] == buf0[p - 1]);
                    } else if k >= 2 {
                        // The bytes just before the separator were never
                        // flushed: a match this early is ruled out by the
                        // sliding tail.
                        assert(d > 0);
                        assert(k < d + 3);
                        assert(!is_match_at(f, inter@, k));
                        assert(false);
                    }
                }
                let copied = bytes_range(body_buffer.as_slice(), 0, copy_end);
                value_buffer.extend_from_slice(copied.as_slice());
                bytes_written = bytes_written + copy_end;
                proof {
                    assert(value_buffer@ =~= strip_crlf(f.take(k)));
                }
                if field_limit_exceeded(form_part_limit, bytes_written) {
                    return Err(
                        field_error(
                            form_part,
                            "The form field value size exceeds the limit specified",
                        ),
                    );
                }
                // Drop everything through the separator.
                let rest_buf = bytes_range(body_buffer.as_slice(), p + inter_len, buf_len);
                *body_buffer = rest_buf;
                let ghost tail = f.skip(k + inter_len);
                proof {
                    assert(body_buffer@ =~= tail.take(body_buffer@.len() as int));
                    assert(reader.remaining() =~= tail.skip(body_buffer@.len() as int));
                }
                // Make sure four bytes are at hand to tell the two tails
                // apart.
                if body_buffer.len() < 4 {
                    let need = 4 - body_buffer.len();
                    match reader.get_exact(need) {
                        Ok(mut chunk) => {
                            body_buffer.append(&mut chunk);
                            proof {
                                assert(body_buffer@ =~= tail.take(body_buffer@.len() as int));
                                assert(reader.remaining() =~= tail.skip(
                                    body_buffer@.len() as int,
                                ));
                            }
                        },
                        Err(e) => {
                            proof {
                                assert(tail.len() < 4);
                            }
                            return Err(e);
                        },
                    }
                }
                proof {
                    assert(tail.len() >= 4);
                    assert(body_buffer@.len() >= 4);
                    assert(body_buffer@.take(4) =~= tail.take(4));
                    assert(body_buffer@.take(2) =~= tail.take(2));
                }
                let et = end_tail_needle();
                if starts_with(body_buffer.as_slice(), et.as_slice()) {
                    body_buffer.clear();
                    form_part.value = Some(value_buffer);
                    return Ok(FormPartResult::BodyCompleted);
                }
                let cn = crate::headers::crlf_needle_pub();
                if starts_with(body_buffer.as_slice(), cn.as_slice()) {
                    let blen = body_buffer.len();
                    let rest2 = bytes_range(body_buffer.as_slice(), 2, blen);
                    *body_buffer = rest2;
                    form_part.value = Some(value_buffer);
                    proof {
                        assert(body_buffer@ + reader.remaining() =~= tail.skip(2));
                    }
                    return Ok(FormPartResult::CheckNext);
                }
                return Err(
                    MultipartFormDataError::ParsingError("Form content did not end with CRLF"),
                );
            },
            None => {
                proof {
                    lemma_find_sub_characterization(body_buffer@, inter@);
                }
                // Flush all but the sliding tail, then pull more bytes.
                if buf_len > inter_len && buf_len - inter_len > 2 {
                    let t = buf_len - inter_len - 2;
                    let flushed = bytes_range(body_buffer.as_slice(), 0, t);
                    value_buffer.extend_from_slice(flushed.as_slice());
                    bytes_written = bytes_written + t;
                    let rest_buf = bytes_range(body_buffer.as_slice(), t, buf_len);
                    *body_buffer = rest_buf;
                    proof {
                        let d2 = d + t;
                        assert forall|j: int| 0 <= j < d2 + 3 implies !is_match_at(
                            f,
                            inter@,
                            j,
                        ) by {
                            if j >= d {
                                assert(j + inter@.len() <= m);
                                lemma_match_in_window(f, inter@, d, m, j);
                                assert(!is_match_at(buf0, inter@, j - d));
                            }
                        }
                        assert(value_buffer@ =~= f.take(d2));
                        assert(body_buffer@ =~= f.subrange(d2, d2 + body_buffer@.len()));
                        assert(reader.remaining() =~= f.skip(d2 + body_buffer@.len()));
                        d = d2;
                    }
                }
                if field_limit_exceeded(form_part_limit, bytes_written) {
                    proof {
                        // The flushed bytes already exceed the limit, so
                        // whatever the section holds further on, its
                        // content does too.
                        match find_sub(f, inter@) {
                            Some(k) => {
                                lemma_find_sub_characterization(f, inter@);
                                assert(is_match_at(f, inter@, k));
                                assert(k >= d + 3);
                                assert(strip_crlf(f.take(k)).len() >= k - 2);
                            },
                            None => {
                                assert(body_buffer@.len() >= inter_len + 2);
                                assert(f.len() >= d + inter@.len() + 2);
                            },
                        }
                    }
                    return Err(
                        field_error(
                            form_part,
                            "The form field value size exceeds the limit specified",
                        ),
                    );
                }
                match reader.get_chunk() {
                    Ok(mut chunk) => {
                        body_buffer.append(&mut chunk);
                        proof {
                            assert(body_buffer@ =~= f.subrange(d, d + body_buffer@.len()));
                            assert(reader.remaining() =~= f.skip(d + body_buffer@.len()));
                        }
                    },
                    Err(e) => {
                        proof {
                            assert(reader.remaining().len() == 0);
                            assert(m == f.len());
                            lemma_find_sub_characterization(buf0, inter@);
                            assert forall|j: int| !is_match_at(f, inter@, j) by {
                                if 0 <= j && j + inter@.len() <= f.len() {
                                    if j >= d0 {
                                        lemma_match_in_window(f, inter@, d0, m, j);
                                        assert(!is_match_at(buf0, inter@, j - d0));
                                    }
                                }
                            }
                            lemma_find_sub_from_no_match(f, inter@);
                            assert(body_buffer@.len() <= inter_len + 2);
                        }
                        return Err(e);
                    },
                }
            },
        }
    }
}

/// Reads a file part's content from the buffer and the reader into a
/// fresh temporary file: everything up to the `\r\n--B` separator, with a
/// trailing `\r\n` stripped, is spooled out, and the file is rewound
/// before it is handed over in the part's `temp_file`.  The field limit
/// counts the content before stripping.  A temporary-file failure gives
/// the `Others` error.
#[verifier::rlimit(100)]
pub fn extract_form_file_body<T: StreamReader>(
    reader: &mut T,
    body_buffer: &mut Vec<u8>,
    boundary: &String,
    form_part: &mut FormPart,
    form_part_limit: Option<&FormPartLimit>,
) -> (r: Result<FormPartResult, MultipartFormDataError>)
    requires
        old(body_buffer)@.len() + old(reader).remaining().len() <= usize::MAX,
        opt_limit(form_part_limit) is Some ==> old(form_part).name is Some,
    ensures
        (r matches Err(e) && e is Others) || ({
            let f = old(body_buffer)@ + old(reader).remaining();
            let out = body_section_spec(
                f,
                vstd::utf8::encode_utf8(boundary@),
                opt_limit(form_part_limit),
                true,
            );
            match out {
                SectionOutcome::Next(body, rest) => {
                    &&& r matches Ok(fr) && fr is CheckNext
                    &&& final(form_part).temp_file matches Some(tf) && file_bytes(tf) == body
                        && file_cursor(tf) == 0
                    &&& final(form_part).name == old(form_part).name
                    &&& final(form_part).filename == old(form_part).filename
                    &&& final(form_part).content_type == old(form_part).content_type
                    &&& final(form_part).value == old(form_part).value
                    &&& final(body_buffer)@ + final(reader).remaining() == rest
                },
                SectionOutcome::Last(body) => {
                    &&& r matches Ok(fr) && fr is BodyCompleted
                    &&& final(form_part).temp_file matches Some(tf) && file_bytes(tf) == body
                        && file_cursor(tf) == 0
                    &&& final(form_part).name == old(form_part).name
                    &&& final(form_part).filename == old(form_part).filename
                    &&& final(form_part).content_type == old(form_part).content_type
                    &&& final(form_part).value == old(form_part).value
                },
                SectionOutcome::Fail(SectionFail::FieldSize) => r matches Err(e) && (
                e matches MultipartFormDataError::MaxFieldSizeExceed(nm, _) && nm@ == old(
                    form_part,
                ).name->0@),
                SectionOutcome::Fail(SectionFail::Truncated) => r matches Err(e)
                    && e is BodyReadEnd,
                SectionOutcome::Fail(SectionFail::BadTail) => r matches Err(e)
                    && e is ParsingError,
            }
        }),
{
    let mut temp_file = match SpoolFile::create() {
        Some(t) => t,
        None => {
            return Err(MultipartFormDataError::Others("Error creating temporary file"));
        },
    };
    let ghost f = old(body_buffer)@ + old(reader).remaining();
    let ghost bb = vstd::utf8::encode_utf8(boundary@);
    let inter = inter_needle(boundary);
    let inter_len = inter.len();
    let mut bytes_written: usize = 0;
    let ghost mut d: int = 0;
    proof {
        assert(f.take(0) =~= Seq::<u8>::empty());
        assert(body_buffer@ =~= f.subrange(0, body_buffer@.len() as int));
        assert(reader.remaining() =~= f.skip(body_buffer@.len() as int));
    }
    loop
        invariant
            inter@ == inter_seq(bb),
            bb == vstd::utf8::encode_utf8(boundary@),
            inter_len == inter@.len(),
            f == old(body_buffer)@ + old(reader).remaining(),
            f.len() <= usize::MAX,
            0 <= d,
            d + body_buffer@.len() + reader.remaining().len() == f.len(),
            file_bytes(temp_file) == f.take(d),
            file_cursor(temp_file) == file_bytes(temp_file).len(),
            body_buffer@ == f.subrange(d, d + body_buffer@.len()),
            reader.remaining() == f.skip(d + body_buffer@.len()),
            bytes_written == d,
            forall|j: int| 0 <= j < d ==> !is_match_at(f, inter@, j),
            d == 0 || (forall|j: int| 0 <= j < d + 3 ==> !is_match_at(f, inter@, j)),
            d == 0 || body_buffer@.len() >= inter_len + 2,
            opt_limit(form_part_limit) is Some ==> form_part.name is Some,
            *form_part == *old(form_part),
            opt_limit(form_part_limit) matches Some(mx) ==> d <= mx,
        decreases reader.remaining().len(),
    {
        let buf_len = body_buffer.len();
        let ghost m = d + buf_len;
        let ghost buf0 = body_buffer@;
        let ghost d0 = d;
        proof {
            assert(f.subrange(d, m) == buf0);
        }
        match find_subslice(body_buffer.as_slice(), inter.as_slice()) {
            Some(p) => {
                proof {
                    lemma_find_sub_characterization(buf0, inter@);
                    let k = d + p;
                    assert(is_match_at(f, inter@, k)) by {
                        lemma_match_in_window(f, inter@, d, m, k);
                    }
                    assert forall|j: int| 0 <= j < k implies !is_match_at(f, inter@, j) by {
                        if j >= d {
                            lemma_match_in_window(f, inter@, d, m, j);
                            assert(!is_match_at(buf0, inter@, j - d));
                        }
                    }
                    lemma_find_sub_from_first_match(f, inter@, k);
                }
                let ghost k = d + p;
                // Write the content bytes before the separator, stripping
                // a trailing line break; the limit counts them unstripped.
                let copy_end = if p >= 2 && body_buffer[p - 2] == 13 && body_buffer[p - 1] == 10 {
                    p - 2
                } else {
                    p
                };
                proof {
                    let content = f.take(k);
                    assert(content.len() == k);
                    if p >= 2 {
                        assert(content[k - 2] == buf0[p - 2]);
                        assert(content[k - 1] == buf0[p - 1]);
                    } else if k >= 2 {
                        assert(d > 0);
                        assert(k < d + 3);
                        assert(!is_match_at(f, inter@, k));
                        assert(false);
                    }
                }
                let copied = bytes_range(body_buffer.as_slice(), 0, copy_end);
                if !temp_file.write_all(copied.as_slice()) {
                    return Err(MultipartFormDataError::Others("Error writing to temporary file"));
                }
                bytes_written = bytes_written + p;
                proof {
                    assert(file_bytes(temp_file) =~= strip_crlf(f.take(k)));
                }
                if field_limit_exceeded(form_part_limit, bytes_written) {
                    return Err(
                        field_error(
                            form_part,
                            "The file is bigger than the maximum allowed size",
                        ),
                    );
                }
                // Drop everything through the separator.
                let rest_buf = bytes_range(body_buffer.as_slice(), p + inter_len, buf_len);
                *body_buffer = rest_buf;
                let ghost tail = f.skip(k + inter_len);
                proof {
                    assert(body_buffer@ =~= tail.take(body_buffer@.len() as int));
                    assert(reader.remaining() =~= tail.skip(body_buffer@.len() as int));
                }
                if body_buffer.len() < 4 {
                    let need = 4 - body_buffer.len();
                    match reader.get_exact(need) {
                        Ok(mut chunk) => {
                            body_buffer.append(&mut chunk);
                            proof {
                                assert(body_buffer@ =~= tail.take(body_buffer@.len() as int));
                                assert(reader.remaining() =~= tail.skip(
                                    body_buffer@.len() as int,
                                ));
                            }
                        },
                        Err(e) => {
                            proof {
                                assert(tail.len() < 4);
                            }
                            return Err(e);
                        },
                    }
                }
                proof {
                    assert(tail.len() >= 4);
                    assert(body_buffer@.len() >= 4);
                    assert(body_buffer@.take(4) =~= tail.take(4));
                    assert(body_buffer@.take(2) =~= tail.take(2));
                }
                let et = end_tail_needle();
                if starts_with(body_buffer.as_slice(), et.as_slice()) {
                    body_buffer.clear();
                    if !temp_file.rewind() {
                        return Err(
                            MultipartFormDataError::Others("Error seeking temporary file"),
                        );
                    }
                    form_part.temp_file = Some(temp_file);
                    return Ok(FormPartResult::BodyCompleted);
                }
                let cn = crate::headers::crlf_needle_pub();
                if starts_with(body_buffer.as_slice(), cn.as_slice()) {
                    let blen = body_buffer.len();
                    let rest2 = bytes_range(body_buffer.as_slice(), 2, blen);
                    *body_buffer = rest2;
                    if !temp_file.rewind() {
                        return Err(
                            MultipartFormDataError::Others("Error seeking temporary file"),
                        );
                    }
                    form_part.temp_file = Some(temp_file);
                    proof {
                        assert(body_buffer@ + reader.remaining() =~= tail.skip(2));
                    }
                    return Ok(FormPartResult::CheckNext);
                }
                return Err(
                    MultipartFormDataError::ParsingError("Form content did not end with CRLF"),
                );
            },
            None => {
                proof {
                    lemma_find_sub_characterization(buf0, inter@);
                }
                // Flush all but the sliding tail, then pull more bytes.
                if buf_len > inter_len && buf_len - inter_len > 2 {
                    let t = buf_len - inter_len - 2;
                    let flushed = bytes_range(body_buffer.as_slice(), 0, t);
                    if !temp_file.write_all(flushed.as_slice()) {
                        return Err(
                            MultipartFormDataError::Others("Error writing to temporary file"),
                        );
                    }
                    bytes_written = bytes_written + t;
                    let rest_buf = bytes_range(body_buffer.as_slice(), t, buf_len);
                    *body_buffer = rest_buf;
                    proof {
                        let d2 = d + t;
                        assert forall|j: int| 0 <= j < d2 + 3 implies !is_match_at(
                            f,
                            inter@,
                            j,
                        ) by {
                            if j >= d {
                                assert(j + inter@.len() <= m);
                                lemma_match_in_window(f, inter@, d, m, j);
                                assert(!is_match_at(buf0, inter@, j - d));
                            }
                        }
                        assert(file_bytes(temp_file) =~= f.take(d2));
                        assert(body_buffer@ =~= f.subrange(d2, d2 + body_buffer@.len()));
                        assert(reader.remaining() =~= f.skip(d2 + body_buffer@.len()));
                        d = d2;
                    }
                }
                if field_limit_exceeded(form_part_limit, bytes_written) {
                    proof {
                        match find_sub(f, inter@) {
                            Some(k) => {
                                lemma_find_sub_characterization(f, inter@);
                                assert(is_match_at(f, inter@, k));
                                assert(k >= d + 3);
                            },
                            None => {
                                assert(body_buffer@.len() >= inter_len + 2);
                                assert(f.len() >= d + inter@.len() + 2);
                            },
                        }
                    }
                    return Err(
                        field_error(
                            form_part,
                            "The file is bigger than the maximum allowed size",
                        ),
                    );
                }
                match reader.get_chunk() {
                    Ok(mut chunk) => {
                        body_buffer.append(&mut chunk);
                        proof {
                            assert(body_buffer@ =~= f.subrange(d, d + body_buffer@.len()));
                            assert(reader.remaining() =~= f.skip(d + body_buffer@.len()));
                        }
                    },
                    Err(e) => {
                        proof {
                            assert(reader.remaining().len() == 0);
                            assert(m == f.len());
                            lemma_find_sub_characterization(buf0, inter@);
                            assert forall|j: int| !is_match_at(f, inter@, j) by {
                                if 0 <= j && j + inter@.len() <= f.len() {
                                    if j >= d0 {
                                        lemma_match_in_window(f, inter@, d0, m, j);
                                        assert(!is_match_at(buf0, inter@, j - d0));
                                    }
                                }
                            }
                            lemma_find_sub_from_no_match(f, inter@);
                            assert(body_buffer@.len() <= inter_len + 2);
                        }
                        return Err(e);
                    },
                }
            },
        }
    }
}

/// Reads one part's content through to the next boundary, to memory or to
/// a temporary file by whether the part carries a filename, enforcing the
/// limit configured for the part's field.
pub fn extract_form_part_body<T: StreamReader>(
    reader: &mut T,
    body_buffer: &mut Vec<u8>,
    boundary: &String,
    form_part: &mut FormPart,
    limits: &Limits,
) -> (r: Result<FormPartResult, MultipartFormDataError>)
    requires
        old(body_buffer)@.len() + old(reader).remaining().len() <= usize::MAX,
    ensures
        ({
            let f = old(body_buffer)@ + old(reader).remaining();
            let is_file = old(form_part).filename is Some;
            let lim = match opt_view(old(form_part).name) {
                Some(nm) => limits.field_limit(nm),
                None => None,
            };
            let out = body_section_spec(f, vstd::utf8::encode_utf8(boundary@), lim, is_file);
            (is_file && (r matches Err(e) && e is Others)) || (match out {
                SectionOutcome::Next(body, rest) => {
                    &&& r matches Ok(fr) && fr is CheckNext
                    &&& final(form_part).name == old(form_part).name
                    &&& final(form_part).filename == old(form_part).filename
                    &&& final(form_part).content_type == old(form_part).content_type
                    &&& (is_file ==> final(form_part).value == old(form_part).value && (
                    final(form_part).temp_file matches Some(tf) && file_bytes(tf) == body
                        && file_cursor(tf) == 0))
                    &&& (!is_file ==> final(form_part).temp_file == old(form_part).temp_file && (
                    final(form_part).value matches Some(v) && v@ == body))
                    &&& final(body_buffer)@ + final(reader).remaining() == rest
                },
                SectionOutcome::Last(body) => {
                    &&& r matches Ok(fr) && fr is BodyCompleted
                    &&& final(form_part).name == old(form_part).name
                    &&& final(form_part).filename == old(form_part).filename
                    &&& final(form_part).content_type == old(form_part).content_type
                    &&& (is_file ==> final(form_part).value == old(form_part).value && (
                    final(form_part).temp_file matches Some(tf) && file_bytes(tf) == body
                        && file_cursor(tf) == 0))
                    &&& (!is_file ==> final(form_part).temp_file == old(form_part).temp_file && (
                    final(form_part).value matches Some(v) && v@ == body))
                },
                SectionOutcome::Fail(SectionFail::FieldSize) => r matches Err(e) && (
                e matches MultipartFormDataError::MaxFieldSizeExceed(nm, _) && nm@ == old(
                    form_part,
                ).name->0@),
                SectionOutcome::Fail(SectionFail::Truncated) => r matches Err(e)
                    && e is BodyReadEnd,
                SectionOutcome::Fail(SectionFail::BadTail) => r matches Err(e)
                    && e is ParsingError,
            })
        }),
{
    let form_part_limit: Option<&FormPartLimit> = match &form_part.name {
        Some(field_name) => {
            proof {
                crate::multimap::lemma_mm_find(limits.form_part_limits.entries(), field_name@);
            }
            match limits.form_part_limits.get(field_name.as_str()) {
                Some(ls) => {
                    if ls.len() > 0 {
                        proof {
                            match crate::multimap::mm_find(
                                limits.form_part_limits.entries(),
                                field_name@,
                            ) {
                                Some(i) => {
                                    assert(limits.form_part_limits.entries()[i] == (
                                        limits.form_part_limits.pairs@[i].0@,
                                        limits.form_part_limits.pairs@[i].1@,
                                    ));
                                },
                                None => {},
                            }
                        }
                        Some(&ls[0])
                    } else {
                        None
                    }
                },
                None => None,
            }
        },
        None => None,
    };
    let is_file = form_part.filename.is_some();
    if is_file {
        extract_form_file_body(reader, body_buffer, boundary, form_part, form_part_limit)
    } else {
        extract_form_value(reader, body_buffer, boundary, form_part, form_part_limit)
    }
}

/// How a part's header section ends.
pub ghost enum HeaderOutcome {
    /// The header block before the blank line, and the bytes after it.
    Found(Seq<u8>, Seq<u8>),
    /// The block reaches the configured size limit.
    TooBig,
    /// The bytes end before a blank line.
    Truncated,
}

/// What becomes of the bytes at the start of a part: the header block
/// runs to the first blank line and must stay under the limit when one is
/// set.
pub open spec fn header_section_spec(rest: Seq<u8>, max: Option<int>) -> HeaderOutcome {
    match find_sub(rest, crate::headers::crlf_crlf()) {
        Some(i) => if max matches Some(mx) && i >= mx {
            HeaderOutcome::TooBig
        } else {
            HeaderOutcome::Found(rest.take(i), rest.skip(i + 4))
        },
        None => if max matches Some(mx) && rest.len() >= mx + 3 {
            HeaderOutcome::TooBig
        } else {
            HeaderOutcome::Truncated
        },
    }
}

/// Accumulates one part's header block, up to and not including the blank
/// line, removing it and the blank line from the buffer.  The whole
/// accumulated buffer is scanned after each read, so a blank line
/// straddling two reads is found.
pub fn extract_form_part_header<T: StreamReader>(
    reader: &mut T,
    body_buffer: &mut Vec<u8>,
    limits: &Limits,
) -> (r: Result<Vec<u8>, MultipartFormDataError>)
    requires
        old(body_buffer)@.len() + old(reader).remaining().len() <= usize::MAX,
    ensures
        ({
            let rest = old(body_buffer)@ + old(reader).remaining();
            let mx = match limits.max_header_size {
                Some(m) => Some(m as int),
                None => None,
            };
            match header_section_spec(rest, mx) {
                HeaderOutcome::Found(h, after) => {
                    &&& r matches Ok(hb) && hb@ == h
                    &&& final(body_buffer)@ + final(reader).remaining() == after
                },
                HeaderOutcome::TooBig => r matches Err(e) && e is HeaderSizeExceed,
                HeaderOutcome::Truncated => r matches Err(e) && e is BodyReadEnd,
            }
        }),
{
    let ghost rest = old(body_buffer)@ + old(reader).remaining();
    let needle = crate::headers::crlf_crlf_needle();
    proof {
        assert(body_buffer@ =~= rest.take(body_buffer@.len() as int));
        assert(reader.remaining() =~= rest.skip(body_buffer@.len() as int));
    }
    loop
        invariant
            needle@ == crate::headers::crlf_crlf(),
            rest == old(body_buffer)@ + old(reader).remaining(),
            rest.len() <= usize::MAX,
            body_buffer@.len() + reader.remaining().len() == rest.len(),
            body_buffer@ == rest.take(body_buffer@.len() as int),
            reader.remaining() == rest.skip(body_buffer@.len() as int),
        decreases reader.remaining().len(),
    {
        let buf_len = body_buffer.len();
        let ghost buf0 = body_buffer@;
        match find_subslice(body_buffer.as_slice(), needle.as_slice()) {
            Some(i) => {
                proof {
                    lemma_find_sub_characterization(buf0, crate::headers::crlf_crlf());
                    assert(is_match_at(rest, crate::headers::crlf_crlf(), i as int)) by {
                        lemma_match_in_window(
                            rest,
                            crate::headers::crlf_crlf(),
                            0,
                            buf_len as int,
                            i as int,
                        );
                    }
                    assert forall|j: int| 0 <= j < i implies !is_match_at(
                        rest,
                        crate::headers::crlf_crlf(),
                        j,
                    ) by {
                        lemma_match_in_window(
                            rest,
                            crate::headers::crlf_crlf(),
                            0,
                            buf_len as int,
                            j,
                        );
                        assert(!is_match_at(buf0, crate::headers::crlf_crlf(), j));
                    }
                    lemma_find_sub_from_first_match(rest, crate::headers::crlf_crlf(), i as int);
                }
                let over = match limits.max_header_size {
                    Some(mx) => i >= mx,
                    None => false,
                };
                if over {
                    return Err(
                        MultipartFormDataError::HeaderSizeExceed(
                            "Header size exceed max specified size",
                        ),
                    );
                }
                let header = bytes_range(body_buffer.as_slice(), 0, i);
                let after_buf = bytes_range(body_buffer.as_slice(), i + 4, buf_len);
                *body_buffer = after_buf;
                proof {
                    assert(header@ =~= rest.take(i as int));
                    assert(body_buffer@ + reader.remaining() =~= rest.skip(i + 4));
                }
                return Ok(header);
            },
            None => {
                proof {
                    lemma_find_sub_characterization(buf0, crate::headers::crlf_crlf());
                }
                let over = match limits.max_header_size {
                    Some(mx) => buf_len >= 3 && buf_len - 3 >= mx,
                    None => false,
                };
                if over {
                    proof {
                        match find_sub(rest, crate::headers::crlf_crlf()) {
                            Some(i) => {
                                lemma_find_sub_characterization(
                                    rest,
                                    crate::headers::crlf_crlf(),
                                );
                                assert(is_match_at(rest, crate::headers::crlf_crlf(), i));
                                if i + 4 <= buf_len {
                                    lemma_match_in_window(
                                        rest,
                                        crate::headers::crlf_crlf(),
                                        0,
                                        buf_len as int,
                                        i,
                                    );
                                    assert(!is_match_at(buf0, crate::headers::crlf_crlf(), i));
                                }
                                assert(i > buf_len - 4);
                            },
                            None => {},
                        }
                    }
                    return Err(
                        MultipartFormDataError::HeaderSizeExceed(
                            "Header size exceed max specified size",
                        ),
                    );
                }
                match reader.get_chunk() {
                    Ok(mut chunk) => {
                        body_buffer.append(&mut chunk);
                        proof {
                            assert(body_buffer@ =~= rest.take(body_buffer@.len() as int));
                            assert(reader.remaining() =~= rest.skip(body_buffer@.len() as int));
                        }
                    },
                    Err(e) => {
                        proof {
                            assert(reader.remaining().len() == 0);
                            assert(buf0 =~= rest);
                        }
                        return Err(e);
                    },
                }
            },
        }
    }
}

/// What decoding a whole multipart body yields.
pub ghost enum MultipartOutcome {
    /// The decoded parts, in source order.
    Parts(Seq<PartModel>),
    Fail(PartsFail),
}

/// Why decoding a multipart body fails.
pub ghost enum PartsFail {
    /// The body does not begin with the opening boundary.
    NoStart,
    /// A declared `Content-Length` exceeds the body size limit.
    BodyTooBig,
    /// A part's header block reaches the header size limit.
    HeaderTooBig,
    /// The named field's content exceeds its limit.
    FieldTooBig(Seq<char>),
    /// After a separator there is neither `\r\n` nor `--\r\n`.
    BadTail,
    /// The bytes end before the final part's tail.
    Truncated,
}

/// The parts decoded from `rest`, one after another: each is a header
/// section and a content section, until a content section announces the
/// final part.
pub open spec fn parse_parts_spec(
    rest: Seq<u8>,
    b: Seq<u8>,
    mx: Option<int>,
    fl: Seq<(Seq<char>, Seq<FormPartLimit>)>,
    acc: Seq<PartModel>,
) -> MultipartOutcome
    decreases rest.len(),
{
    match header_section_spec(rest, mx) {
        HeaderOutcome::TooBig => MultipartOutcome::Fail(PartsFail::HeaderTooBig),
        HeaderOutcome::Truncated => MultipartOutcome::Fail(PartsFail::Truncated),
        HeaderOutcome::Found(h, after) => {
            let hm = part_header_spec(vstd::utf8::encode_utf8(lossy_utf8(h)));
            let lim = match hm.name {
                Some(nm) => field_limit_of(fl, nm),
                None => None,
            };
            match body_section_spec(after, b, lim, hm.filename is Some) {
                SectionOutcome::Next(body, rest2) => if rest2.len() < rest.len() {
                    parse_parts_spec(rest2, b, mx, fl, acc.push(PartModel { body, ..hm }))
                } else {
                    MultipartOutcome::Fail(PartsFail::Truncated)
                },
                SectionOutcome::Last(body) => MultipartOutcome::Parts(
                    acc.push(PartModel { body, ..hm }),
                ),
                SectionOutcome::Fail(SectionFail::FieldSize) => MultipartOutcome::Fail(
                    match hm.name {
                        Some(nm) => PartsFail::FieldTooBig(nm),
                        None => PartsFail::FieldTooBig(Seq::empty()),
                    },
                ),
                SectionOutcome::Fail(SectionFail::Truncated) => MultipartOutcome::Fail(
                    PartsFail::Truncated,
                ),
                SectionOutcome::Fail(SectionFail::BadTail) => MultipartOutcome::Fail(
                    PartsFail::BadTail,
                ),
            }
        },
    }
}

/// What decoding a multipart body from its bytes yields: the body must
/// open with `--B\r\n`, and its parts follow.
pub open spec fn parse_multipart_spec(
    full: Seq<u8>,
    b: Seq<u8>,
    mx: Option<int>,
    fl: Seq<(Seq<char>, Seq<FormPartLimit>)>,
) -> MultipartOutcome {
    let start = start_seq(b);
    if full.len() < start.len() {
        MultipartOutcome::Fail(PartsFail::Truncated)
    } else if full.take(start.len() as int) != start {
        MultipartOutcome::Fail(PartsFail::NoStart)
    } else {
        parse_parts_spec(full.skip(start.len() as int), b, mx, fl, Seq::empty())
    }
}

/// True when decoding `rest` reaches a part whose header carries a
/// filename — the only parts whose decoding touches a temporary file.
pub open spec fn parts_reach_file(
    rest: Seq<u8>,
    b: Seq<u8>,
    mx: Option<int>,
    fl: Seq<(Seq<char>, Seq<FormPartLimit>)>,
) -> bool
    decreases rest.len(),
{
    match header_section_spec(rest, mx) {
        HeaderOutcome::Found(h, after) => {
            let hm = part_header_spec(vstd::utf8::encode_utf8(lossy_utf8(h)));
            let lim = match hm.name {
                Some(nm) => field_limit_of(fl, nm),
                None => None,
            };
            hm.filename is Some || (match body_section_spec(after, b, lim, hm.filename is Some) {
                SectionOutcome::Next(body, rest2) => rest2.len() < rest.len()
                    && parts_reach_file(rest2, b, mx, fl),
                SectionOutcome::Last(body) => false,
                SectionOutcome::Fail(k) => false,
            })
        },
        HeaderOutcome::TooBig => false,
        HeaderOutcome::Truncated => false,
    }
}

/// True when decoding the whole body reaches a file part.
pub open spec fn multipart_reaches_file(
    full: Seq<u8>,
    b: Seq<u8>,
    mx: Option<int>,
    fl: Seq<(Seq<char>, Seq<FormPartLimit>)>,
) -> bool {
    let start = start_seq(b);
    &&& full.len() >= start.len()
    &&& full.take(start.len() as int) == start
    &&& parts_reach_file(full.skip(start.len() as int), b, mx, fl)
}

/// The error each failed outcome maps to, and the parts each successful
/// outcome carries.
pub open spec fn outcome_matches(
    r: Result<Vec<FormPart>, MultipartFormDataError>,
    out: MultipartOutcome,
) -> bool {
    match out {
        MultipartOutcome::Parts(ms) => r matches Ok(ps) && ps@.len() == ms.len() && (forall|
            i: int,
        |
            0 <= i < ms.len() ==> part_models(#[trigger] ps@[i], ms[i])),
        MultipartOutcome::Fail(PartsFail::NoStart) => r matches Err(e) && e is InvalidMultiPart,
        MultipartOutcome::Fail(PartsFail::BodyTooBig) => r matches Err(e)
            && e is MaxBodySizeExceed,
        MultipartOutcome::Fail(PartsFail::HeaderTooBig) => r matches Err(e)
            && e is HeaderSizeExceed,
        MultipartOutcome::Fail(PartsFail::FieldTooBig(nm)) => r matches Err(e) && (
        e matches MultipartFormDataError::MaxFieldSizeExceed(s, _) && s@ == nm),
        MultipartOutcome::Fail(PartsFail::BadTail) => r matches Err(e) && e is ParsingError,
        MultipartOutcome::Fail(PartsFail::Truncated) => r matches Err(e) && e is BodyReadEnd,
    }
}

/// Decodes every part of a multipart body, given the boundary: the body
/// must open with `--B\r\n`; each part's content goes to memory or to a
/// temporary file by whether it carries a filename.  The outcome is
/// determined by the concatenation of the buffered bytes and the
/// reader's, however the reads are chunked; only a temporary-file failure
/// (the `Others` error) escapes that correspondence.
#[verifier::rlimit(100)]
pub fn parse_body_parts<T: StreamReader>(
    reader: T,
    body_buffer: Vec<u8>,
    boundary: &String,
    limits: Limits,
) -> (r: Result<Vec<FormPart>, MultipartFormDataError>)
    requires
        body_buffer@.len() + reader.remaining().len() <= usize::MAX,
    ensures
        outcome_matches(
            r,
            parse_multipart_spec(
                body_buffer@ + reader.remaining(),
                vstd::utf8::encode_utf8(boundary@),
                limits.max_header_int(),
                limits.form_part_limits.entries(),
            ),
        ) || ((r matches Err(e) && e is Others) && multipart_reaches_file(
            body_buffer@ + reader.remaining(),
            vstd::utf8::encode_utf8(boundary@),
            limits.max_header_int(),
            limits.form_part_limits.entries(),
        )),
{
    let mut rdr = reader;
    let mut buf = body_buffer;
    let ghost full = buf@ + rdr.remaining();
    let ghost bb = vstd::utf8::encode_utf8(boundary@);
    let ghost mxg = limits.max_header_int();
    let ghost flg = limits.form_part_limits.entries();
    let mut start_boundary: Vec<u8> = Vec::new();
    start_boundary.push(45);
    start_boundary.push(45);
    start_boundary.extend_from_slice(boundary.as_str().as_bytes());
    start_boundary.push(13);
    start_boundary.push(10);
    proof {
        assert(start_boundary@ =~= start_seq(bb));
        assert(buf@ =~= full.take(buf@.len() as int));
        assert(rdr.remaining() =~= full.skip(buf@.len() as int));
    }
    let start_len = start_boundary.len();
    if buf.len() <= start_len {
        let need = start_len - buf.len();
        match rdr.get_exact(need) {
            Ok(mut chunk) => {
                buf.append(&mut chunk);
                proof {
                    assert(buf@ =~= full.take(buf@.len() as int));
                    assert(rdr.remaining() =~= full.skip(buf@.len() as int));
                }
            },
            Err(e) => {
                proof {
                    assert(full.len() < start_len);
                }
                return Err(e);
            },
        }
    }
    if !body_buffer_starts_with_boundary(&buf, start_boundary.as_slice()) {
        proof {
            assert(buf@.take(start_len as int) =~= full.take(start_len as int));
        }
        return Err(MultipartFormDataError::InvalidMultiPart("Body does not start with boundary"));
    }
    proof {
        assert(buf@.take(start_len as int) =~= full.take(start_len as int));
    }
    let buf_len = buf.len();
    let after_start = bytes_range(buf.as_slice(), start_len, buf_len);
    buf = after_start;
    let ghost rest0 = full.skip(start_len as int);
    proof {
        assert(buf@ + rdr.remaining() =~= rest0);
    }
    let mut form_parts: Vec<FormPart> = Vec::new();
    let ghost mut macc: Seq<PartModel> = Seq::empty();
    proof {
        assert(parts_reach_file(rest0, bb, mxg, flg) ==> multipart_reaches_file(
            full,
            bb,
            mxg,
            flg,
        ));
    }
    loop
        invariant
            bb == vstd::utf8::encode_utf8(boundary@),
            buf@.len() + rdr.remaining().len() <= usize::MAX,
            form_parts@.len() == macc.len(),
            forall|i: int| 0 <= i < macc.len() ==> part_models(#[trigger] form_parts@[i], macc[i]),
            mxg == limits.max_header_int(),
            flg == limits.form_part_limits.entries(),
            parse_parts_spec(rest0, bb, mxg, flg, Seq::empty()) == parse_parts_spec(
                buf@ + rdr.remaining(),
                bb,
                mxg,
                flg,
                macc,
            ),
            parse_multipart_spec(full, bb, mxg, flg) == parse_parts_spec(
                rest0,
                bb,
                mxg,
                flg,
                Seq::empty(),
            ),
            parts_reach_file(rest0, bb, mxg, flg) ==> multipart_reaches_file(full, bb, mxg, flg),
            parts_reach_file(buf@ + rdr.remaining(), bb, mxg, flg) ==> parts_reach_file(
                rest0,
                bb,
                mxg,
                flg,
            ),
            full == body_buffer@ + reader.remaining(),
        decreases (buf@ + rdr.remaining()).len(),
    {
        let ghost rest_here = buf@ + rdr.remaining();
        let header_result = extract_form_part_header(&mut rdr, &mut buf, &limits);
        let form_part_header = match header_result {
            Ok(h) => h,
            Err(e) => {
                return Err(e);
            },
        };
        let header_text = bytes_to_string_lossy(form_part_header.as_slice());
        let header_parse_result = parse_form_part_header(header_text);
        let mut form_part = match header_parse_result {
            Ok(p) => p,
            Err(e) => {
                proof {
                    assert(false);
                }
                return Err(e);
            },
        };
        let ghost hm = part_header_spec(vstd::utf8::encode_utf8(lossy_utf8(form_part_header@)));
        let ghost after_h = buf@ + rdr.remaining();
        proof {
            lemma_find_sub_characterization(rest_here, crate::headers::crlf_crlf());
            match header_section_spec(rest_here, mxg) {
                HeaderOutcome::Found(h, after) => {
                    assert(h == form_part_header@);
                    assert(after == after_h);
                    assert(after_h.len() + 4 <= rest_here.len());
                },
                HeaderOutcome::TooBig => {
                    assert(false);
                },
                HeaderOutcome::Truncated => {
                    assert(false);
                },
            }
        }
        let body_parse_result = extract_form_part_body(
            &mut rdr,
            &mut buf,
            boundary,
            &mut form_part,
            &limits,
        );
        let ghost out = body_section_spec(
            after_h,
            bb,
            match hm.name {
                Some(nm) => field_limit_of(flg, nm),
                None => None,
            },
            hm.filename is Some,
        );
        match body_parse_result {
            Ok(result) => {
                match result {
                    FormPartResult::BodyCompleted => {
                        proof {
                            let body = out->Last_0;
                            assert(part_models(form_part, PartModel { body, ..hm }));
                            assert(parse_parts_spec(rest_here, bb, mxg, flg, macc)
                                == MultipartOutcome::Parts(
                                macc.push(PartModel { body, ..hm }),
                            ));
                        }
                        form_parts.push(form_part);
                        proof {
                            macc = macc.push(PartModel { body: out->Last_0, ..hm });
                            assert(forall|i: int|
                                0 <= i < macc.len() ==> part_models(
                                    #[trigger] form_parts@[i],
                                    macc[i],
                                ));
                        }
                        return Ok(form_parts);
                    },
                    FormPartResult::CheckNext => {
                        proof {
                            let body = out->Next_0;
                            let rest2 = out->Next_1;
                            assert(part_models(form_part, PartModel { body, ..hm }));
                            assert(inter_seq(bb).len() >= 4);
                            match find_sub(after_h, inter_seq(bb)) {
                                Some(k) => {
                                    lemma_find_sub_characterization(after_h, inter_seq(bb));
                                    assert(k >= 0);
                                    assert(rest2.len() < rest_here.len());
                                },
                                None => {
                                    assert(false);
                                },
                            }
                            assert(parse_parts_spec(rest_here, bb, mxg, flg, macc)
                                == parse_parts_spec(
                                rest2,
                                bb,
                                mxg,
                                flg,
                                macc.push(PartModel { body, ..hm }),
                            ));
                            assert(parts_reach_file(rest2, bb, mxg, flg) ==> parts_reach_file(
                                rest_here,
                                bb,
                                mxg,
                                flg,
                            ));
                            macc = macc.push(PartModel { body, ..hm });
                        }
                        form_parts.push(form_part);
                        proof {
                            assert(forall|i: int|
                                0 <= i < macc.len() ==> part_models(
                                    #[trigger] form_parts@[i],
                                    macc[i],
                                ));
                        }
                    },
                }
            },
            Err(e) => {
                proof {
                    if e is Others {
                        // Only the file branch touches a temporary file,
                        // so the decode reached a file part.
                        assert(hm.filename is Some);
                        assert(parts_reach_file(rest_here, bb, mxg, flg));
                        assert(multipart_reaches_file(full, bb, mxg, flg));
                    } else {
                        match out {
                            SectionOutcome::Fail(fk) => {
                                if fk is FieldSize {
                                    assert(hm.name is Some);
                                    assert(e matches
                                        MultipartFormDataError::MaxFieldSizeExceed(s, _)
                                        && s@ == hm.name->0);
                                }
                                assert(parse_parts_spec(rest_here, bb, mxg, flg, macc)
                                    == MultipartOutcome::Fail(
                                    match fk {
                                        SectionFail::FieldSize => match hm.name {
                                            Some(nm) => PartsFail::FieldTooBig(nm),
                                            None => PartsFail::FieldTooBig(Seq::empty()),
                                        },
                                        SectionFail::Truncated => PartsFail::Truncated,
                                        SectionFail::BadTail => PartsFail::BadTail,
                                    },
                                ));
                            },
                            SectionOutcome::Next(body, rest2) => {
                                assert(false);
                            },
                            SectionOutcome::Last(body) => {
                                assert(false);
                            },
                        }
                    }
                }
                return Err(e);
            },
        }
    }
}

/// Bookkeeping for a streaming multipart source without its transport:
/// how many body bytes were read, and whether the body has ended, judged
/// by the declared `Content-Length` when there is one and otherwise by
/// whether the bytes seen so far end with `--B\r\n`.  The last bytes of
/// every chunk are retained so the closing boundary is recognised even
/// when it straddles two reads.
pub struct FormDataReader {
    pub boundary_end_bytes: Vec<u8>,
    pub content_length: Option<usize>,
    pub bytes_read: usize,
    pub body_ended: bool,
    /// The last bytes seen, as many as the closing boundary is long.
    pub body_buffer: Vec<u8>,
}

impl FormDataReader {
    /// Starts counting from `body_read` bytes already consumed.
    pub fn new(boundary: String, content_length: Option<usize>, body_read: usize) -> (r:
        FormDataReader)
        ensures
            r.boundary_end_bytes@ == start_seq(vstd::utf8::encode_utf8(boundary@)),
            r.content_length == content_length,
            r.bytes_read == body_read,
            r.body_ended == (content_length matches Some(cl) && body_read >= cl),
            r.body_buffer@ == Seq::<u8>::empty(),
    {
        let mut boundary_end_bytes: Vec<u8> = Vec::new();
        boundary_end_bytes.push(45);
        boundary_end_bytes.push(45);
        boundary_end_bytes.extend_from_slice(boundary.as_str().as_bytes());
        boundary_end_bytes.push(13);
        boundary_end_bytes.push(10);
        proof {
            assert(boundary_end_bytes@ =~= start_seq(vstd::utf8::encode_utf8(boundary@)));
        }
        let body_ended = match content_length {
            Some(cl) => body_read >= cl,
            None => false,
        };
        FormDataReader {
            boundary_end_bytes,
            content_length,
            bytes_read: body_read,
            body_ended,
            body_buffer: Vec::new(),
        }
    }

    /// Accounts for one chunk read from the body: the byte count advances
    /// (saturating), and the body is marked ended once the count reaches
    /// the declared length or, without one, once the bytes seen so far
    /// end with the closing boundary.
    pub fn update_read_status(&mut self, new_chunk: &[u8])
        ensures
            final(self).boundary_end_bytes == old(self).boundary_end_bytes,
            final(self).content_length == old(self).content_length,
            final(self).bytes_read == if old(self).bytes_read + new_chunk@.len() > usize::MAX {
                usize::MAX as int
            } else {
                old(self).bytes_read + new_chunk@.len()
            },
            ({
                let s0 = *old(self);
                let s1 = *final(self);
                let blen = s0.boundary_end_bytes@.len();
                let seen = s0.body_buffer@ + new_chunk@;
                match s0.content_length {
                    Some(cl) => s1.body_ended == (s0.body_ended || s1.bytes_read >= cl)
                        && s1.body_buffer == s0.body_buffer,
                    None => {
                        if s0.body_buffer@.len() >= blen && s0.body_buffer@.skip(
                            s0.body_buffer@.len() - blen,
                        ) == s0.boundary_end_bytes@ {
                            s1.body_ended == true && s1.body_buffer == s0.body_buffer
                        } else {
                            s1.body_ended == s0.body_ended && s1.body_buffer@ == (if seen.len()
                                > blen {
                                seen.skip(seen.len() - blen)
                            } else {
                                seen
                            })
                        }
                    },
                }
            }),
    {
        self.bytes_read = if usize::MAX - self.bytes_read >= new_chunk.len() {
            self.bytes_read + new_chunk.len()
        } else {
            usize::MAX
        };
        match self.content_length {
            Some(cl) => {
                if self.bytes_read >= cl {
                    self.body_ended = true;
                }
            },
            None => {
                if crate::scan::ends_with(
                    self.body_buffer.as_slice(),
                    self.boundary_end_bytes.as_slice(),
                ) {
                    self.body_ended = true;
                    return ;
                }
                // Keep the last bytes of every chunk, as many as the
                // closing boundary is long, to catch a straddling match.
                let blen = self.boundary_end_bytes.len();
                let mut seen: Vec<u8> = Vec::new();
                seen.extend_from_slice(self.body_buffer.as_slice());
                seen.extend_from_slice(new_chunk);
                let total = seen.len();
                if total > blen {
                    let tail = bytes_range(seen.as_slice(), total - blen, total);
                    self.body_buffer = tail;
                } else {
                    self.body_buffer = seen;
                }
            },
        }
    }
}

/// Decodes a multipart request body: the boundary comes from the
/// `Content-Type` header, and a declared `Content-Length` larger than the
/// body size limit is rejected before any byte is read.  The parts are
/// decoded from the already-read `partial_bytes` followed by the
/// reader's bytes.
pub fn parse<T: StreamReader>(
    partial_bytes: Vec<u8>,
    headers: &crate::headers::Headers,
    reader: T,
    limits: Limits,
) -> (r: Result<Vec<FormPart>, MultipartFormDataError>)
    requires
        partial_bytes@.len() + reader.remaining().len() <= usize::MAX,
    ensures
        ({
            let hv = mm_string_view(headers.entries());
            match first_value(hv, "Content-Type"@) {
                None => r matches Err(e) && e is InvalidMultiPart,
                Some(ct) => match extract_boundary_spec(vstd::utf8::encode_utf8(ct)) {
                    None => r matches Err(e) && e is InvalidMultiPart,
                    Some(x) => {
                        if (limits.max_body_size matches Some(mb)
                            && crate::headers::content_length_spec(hv) matches Some(cl) && cl
                            > mb) {
                            r matches Err(e) && e is MaxBodySizeExceed
                        } else {
                            outcome_matches(
                                r,
                                parse_multipart_spec(
                                    partial_bytes@ + reader.remaining(),
                                    vstd::utf8::encode_utf8(lossy_utf8(x)),
                                    limits.max_header_int(),
                                    limits.form_part_limits.entries(),
                                ),
                            ) || ((r matches Err(e) && e is Others) && multipart_reaches_file(
                                partial_bytes@ + reader.remaining(),
                                vstd::utf8::encode_utf8(lossy_utf8(x)),
                                limits.max_header_int(),
                                limits.form_part_limits.entries(),
                            ))
                        }
                    },
                },
            }
        }),
{
    let content_type: String = match headers.first("Content-Type") {
        Some(ct) => ct.clone(),
        None => {
            return Err(MultipartFormDataError::InvalidMultiPart("Content-Type header missing."));
        },
    };
    let multipart_boundary: String = match extract_boundary(&content_type) {
        Some(boundary) => boundary,
        None => {
            return Err(
                MultipartFormDataError::InvalidMultiPart("Unable to extract multipart boundary."),
            );
        },
    };
    // Check if the declared body length is larger than the limit.
    match limits.max_body_size {
        Some(max_body_size) => {
            match crate::headers::content_length(headers) {
                Some(content_length) => {
                    if content_length > max_body_size {
                        return Err(
                            MultipartFormDataError::MaxBodySizeExceed(
                                "Maximum specified body size exceed.",
                            ),
                        );
                    }
                },
                None => {},
            }
        },
        None => {},
    }
    parse_body_parts(reader, partial_bytes, &multipart_boundary, limits)
}

/// Decoding a multipart body depends only on the concatenation of the
/// already-buffered bytes and the stream's bytes: any two chunkings of
/// the same bytes decode to the same outcome.
pub proof fn lemma_multipart_chunking_invariant(
    buf1: Seq<u8>,
    s1: Seq<u8>,
    buf2: Seq<u8>,
    s2: Seq<u8>,
    b: Seq<u8>,
    mx: Option<int>,
    fl: Seq<(Seq<char>, Seq<FormPartLimit>)>,
)
    requires
        buf1 + s1 == buf2 + s2,
    ensures
        parse_multipart_spec(buf1 + s1, b, mx, fl) == parse_multipart_spec(buf2 + s2, b, mx, fl),
{
}

/// Every decoded part holds exactly one kind of content, by whether its
/// header carried a filename: a file part has a spooled file and no
/// in-memory value, a value part the other way round.
pub proof fn lemma_parts_value_file_shape(ps: Seq<FormPart>, ms: Seq<PartModel>)
    requires
        ps.len() == ms.len(),
        forall|i: int| 0 <= i < ms.len() ==> part_models(#[trigger] ps[i], ms[i]),
    ensures
        forall|i: int|
            0 <= i < ps.len() ==> ((#[trigger] ps[i]).filename is Some ==> ps[i].value is None
                && ps[i].temp_file is Some),
        forall|i: int|
            0 <= i < ps.len() ==> ((#[trigger] ps[i]).filename is None ==> ps[i].value is Some
                && ps[i].temp_file is None),
{
    assert forall|i: int| 0 <= i < ps.len() implies ((#[trigger] ps[i]).filename is Some
        ==> ps[i].value is None && ps[i].temp_file is Some) && (ps[i].filename is None ==> ps[i].value
        is Some && ps[i].temp_file is None) by {
        assert(part_models(ps[i], ms[i]));
    }
}

/// Parts accumulate one per decoded part, in source order: a successful
/// decode extends the accumulator by at least one part and keeps it as a
/// prefix.
pub proof fn lemma_parts_accumulate(
    rest: Seq<u8>,
    b: Seq<u8>,
    mx: Option<int>,
    fl: Seq<(Seq<char>, Seq<FormPartLimit>)>,
    acc: Seq<PartModel>,
)
    ensures
        match parse_parts_spec(rest, b, mx, fl, acc) {
            MultipartOutcome::Parts(ms) => ms.len() > acc.len() && ms.take(acc.len() as int)
                == acc,
            MultipartOutcome::Fail(k) => true,
        },
    decreases rest.len(),
{
    match header_section_spec(rest, mx) {
        HeaderOutcome::Found(h, after) => {
            let hm = part_header_spec(vstd::utf8::encode_utf8(lossy_utf8(h)));
            let lim = match hm.name {
                Some(nm) => field_limit_of(fl, nm),
                None => None,
            };
            match body_section_spec(after, b, lim, hm.filename is Some) {
                SectionOutcome::Next(body, rest2) => {
                    if rest2.len() < rest.len() {
                        lemma_parts_accumulate(rest2, b, mx, fl, acc.push(PartModel { body, ..hm }));
                        match parse_parts_spec(
                            rest2,
                            b,
                            mx,
                            fl,
                            acc.push(PartModel { body, ..hm }),
                        ) {
                            MultipartOutcome::Parts(ms) => {
                                assert(ms.take(acc.len() as int) =~= acc) by {
                                    assert(ms.take((acc.len() + 1) as int) == acc.push(
                                        PartModel { body, ..hm },
                                    ));
                                    assert forall|i: int| 0 <= i < acc.len() implies ms.take(
                                        acc.len() as int,
                                    )[i] == acc[i] by {
                                        assert(ms.take((acc.len() + 1) as int)[i] == acc.push(
                                            PartModel { body, ..hm },
                                        )[i]);
                                    }
                                }
                            },
                            MultipartOutcome::Fail(_) => {},
                        }
                    }
                },
                SectionOutcome::Last(body) => {
                    assert(acc.push(PartModel { body, ..hm }).take(acc.len() as int) =~= acc);
                },
                SectionOutcome::Fail(_) => {},
            }
        },
        _ => {},
    }
}

/// One part of a multipart body, as a client would send it: its header
/// block and its content bytes.
pub ghost struct PartInput {
    pub header: Seq<u8>,
    pub body: Seq<u8>,
}

/// A well-formed part against boundary `b`: the header block holds no
/// blank line (not even against the terminator that follows it), the
/// content does not contain the separator (not even against the one that
/// follows it), and the content does not end with a line break of its
/// own.
pub open spec fn wf_part_input(p: PartInput, b: Seq<u8>) -> bool {
    &&& forall|j: int|
        0 <= j < p.header.len() ==> !is_match_at(
            p.header + crate::headers::crlf_crlf(),
            crate::headers::crlf_crlf(),
            j,
        )
    &&& forall|j: int|
        0 <= j < p.body.len() ==> !is_match_at(p.body + inter_seq(b), inter_seq(b), j)
    &&& !(p.body.len() >= 2 && p.body[p.body.len() - 2] == 13 && p.body[p.body.len() - 1] == 10)
}

/// The wire form of a list of parts after the opening boundary: each
/// part's header block, the blank line, its content and the separator,
/// with `\r\n` between parts and `--\r\n` after the last.
pub open spec fn encode_parts(ps: Seq<PartInput>, b: Seq<u8>) -> Seq<u8>
    decreases ps.len(),
{
    if ps.len() == 0 {
        Seq::empty()
    } else {
        let tail = if ps.len() == 1 {
            end_tail()
        } else {
            crate::headers::crlf() + encode_parts(ps.skip(1), b)
        };
        ps[0].header + crate::headers::crlf_crlf() + ps[0].body + inter_seq(b) + tail
    }
}

/// The part each input decodes to.
pub open spec fn model_of_input(p: PartInput) -> PartModel {
    PartModel {
        body: p.body,
        ..part_header_spec(vstd::utf8::encode_utf8(lossy_utf8(p.header)))
    }
}

proof fn lemma_encode_parts_min(ps: Seq<PartInput>, b: Seq<u8>)
    requires
        ps.len() > 0,
    ensures
        encode_parts(ps, b).len() >= 10,
{
    assert(inter_seq(b).len() >= 4);
    if ps.len() == 1 {
        assert(end_tail().len() == 4);
    } else {
        assert(crate::headers::crlf().len() == 2);
    }
}

proof fn lemma_parts_round_trip_step(
    ps: Seq<PartInput>,
    b: Seq<u8>,
    fl: Seq<(Seq<char>, Seq<FormPartLimit>)>,
    acc: Seq<PartModel>,
)
    requires
        ps.len() > 0,
        forall|i: int| 0 <= i < ps.len() ==> wf_part_input(#[trigger] ps[i], b),
        fl.len() == 0,
    ensures
        parse_parts_spec(encode_parts(ps, b), b, None, fl, acc) == MultipartOutcome::Parts(
            acc + ps.map(|i: int, p: PartInput| model_of_input(p)),
        ),
    decreases ps.len(),
{
    let rest = encode_parts(ps, b);
    let h = ps[0].header;
    let body = ps[0].body;
    let t4 = crate::headers::crlf_crlf();
    let inter = inter_seq(b);
    let tail = if ps.len() == 1 {
        end_tail()
    } else {
        crate::headers::crlf() + encode_parts(ps.skip(1), b)
    };
    assert(wf_part_input(ps[0], b));
    // The blank line after the header block is the first one.
    assert(rest =~= h + t4 + (body + inter + tail));
    crate::scan::lemma_find_sub_after_prefix(h, t4, body + inter + tail);
    let mxs: Option<int> = None;
    let after = rest.skip(h.len() as int + 4);
    assert(header_section_spec(rest, mxs) == HeaderOutcome::Found(rest.take(h.len() as int), after));
    assert(rest.take(h.len() as int) =~= h);
    assert(after =~= body + inter + tail);
    let hm = part_header_spec(vstd::utf8::encode_utf8(lossy_utf8(h)));
    // No limit is configured for any field.
    let lim = match hm.name {
        Some(nm) => field_limit_of(fl, nm),
        None => None,
    };
    assert(lim is None);
    // The separator after the content is the first one.
    assert(after =~= body + inter + tail);
    crate::scan::lemma_find_sub_after_prefix(body, inter, tail);
    assert(find_sub(after, inter) == Some(body.len() as int));
    assert(after.take(body.len() as int) =~= body);
    assert(strip_crlf(body) == body);
    let tl = after.skip(body.len() as int + inter.len() as int);
    assert(tl =~= tail);
    let out = body_section_spec(after, b, lim, hm.filename is Some);
    if ps.len() == 1 {
        assert(tail.len() >= 4);
        assert(tail.take(4) =~= end_tail());
        assert(out == SectionOutcome::Last(body));
        assert(parse_parts_spec(rest, b, None, fl, acc) == MultipartOutcome::Parts(
            acc.push(PartModel { body, ..hm }),
        ));
        assert(acc.push(model_of_input(ps[0])) =~= acc + ps.map(
            |i: int, p: PartInput| model_of_input(p),
        ));
    } else {
        let rest2 = encode_parts(ps.skip(1), b);
        assert(ps.skip(1).len() > 0);
        lemma_encode_parts_min(ps.skip(1), b);
        assert(tail.len() >= 4);
        assert(tail.take(4) != end_tail()) by {
            assert(tail[0] == 13u8);
            assert(end_tail()[0] == 45u8);
            assert(tail.take(4)[0] == tail[0]);
        }
        assert(tail.take(2) =~= crate::headers::crlf());
        assert(tail.skip(2) =~= rest2);
        assert(out == SectionOutcome::Next(body, rest2));
        assert(rest2.len() < rest.len());
        assert(forall|i: int| 0 <= i < ps.skip(1).len() ==> wf_part_input(
            #[trigger] ps.skip(1)[i],
            b,
        ));
        lemma_parts_round_trip_step(ps.skip(1), b, fl, acc.push(PartModel { body, ..hm }));
        assert(acc.push(model_of_input(ps[0])) + ps.skip(1).map(
            |i: int, p: PartInput| model_of_input(p),
        ) =~= acc + ps.map(|i: int, p: PartInput| model_of_input(p)));
    }
}

/// Round trip: a body assembled from any list of well-formed parts —
/// value parts and file parts alike — decodes to exactly those parts, in
/// source order, one decoded entry per part, when no size limit is set.
pub proof fn lemma_multipart_round_trip(
    ps: Seq<PartInput>,
    b: Seq<u8>,
    fl: Seq<(Seq<char>, Seq<FormPartLimit>)>,
)
    requires
        ps.len() > 0,
        forall|i: int| 0 <= i < ps.len() ==> wf_part_input(#[trigger] ps[i], b),
        fl.len() == 0,
    ensures
        parse_multipart_spec(start_seq(b) + encode_parts(ps, b), b, None, fl)
            == MultipartOutcome::Parts(ps.map(|i: int, p: PartInput| model_of_input(p))),
{
    let full = start_seq(b) + encode_parts(ps, b);
    let start = start_seq(b);
    lemma_encode_parts_min(ps, b);
    assert(full.len() >= start.len());
    assert(full.take(start.len() as int) =~= start);
    assert(full.skip(start.len() as int) =~= encode_parts(ps, b));
    lemma_parts_round_trip_step(ps, b, fl, Seq::empty());
    assert(Seq::<PartModel>::empty() + ps.map(|i: int, p: PartInput| model_of_input(p)) =~= ps.map(
        |i: int, p: PartInput| model_of_input(p),
    ));
}

/// True when the buffer begins with the opening boundary sequence.
pub fn body_buffer_starts_with_boundary(body_buffer: &Vec<u8>, start_boundary_bytes: &[u8]) -> (r:
    bool)
    requires
        body_buffer@.len() >= start_boundary_bytes@.len(),
    ensures
        r == (body_buffer@.take(start_boundary_bytes@.len() as int) == start_boundary_bytes@),
{
    starts_with(body_buffer.as_slice(), start_boundary_bytes)
}

/// Reads the attributes of a `Content-Disposition` value such as
/// `form-data; name="file"; filename="a.txt"` into the part: `name` and
/// `filename` are recorded, values whose `Content-Disposition` does not
/// begin with `form-data;` change nothing.
pub fn parse_content_disposition_value(value: &str, form_part: &mut FormPart)
    ensures
        final(form_part).temp_file == old(form_part).temp_file,
        final(form_part).value == old(form_part).value,
        header_model_of(*final(form_part)) == parse_cd_spec(
            vstd::utf8::encode_utf8(value@),
            header_model_of(*old(form_part)),
        ),
{
    parse_cd_bytes(value.as_bytes(), form_part);
}

/// Records the part's content type.
pub fn parse_content_type(value: &str, form_part: &mut FormPart)
    ensures
        final(form_part).temp_file == old(form_part).temp_file,
        final(form_part).value == old(form_part).value,
        final(form_part).name == old(form_part).name,
        final(form_part).filename == old(form_part).filename,
        final(form_part).content_type matches Some(s) && s@ == value@,
{
    form_part.content_type = Some(value.to_owned());
}

fn part_header_line_exec(line: &[u8], form_part: &mut FormPart)
    ensures
        final(form_part).temp_file == old(form_part).temp_file,
        final(form_part).value == old(form_part).value,
        header_model_of(*final(form_part)) == part_header_line_spec(
            line@,
            header_model_of(*old(form_part)),
        ),
{
    let lt = trim_bytes(line);
    if lt.len() == 0 {
        return ;
    }
    match find_byte(lt.as_slice(), 58) {
        Some(i) => {
            proof {
                lemma_find_sub_characterization(lt@, seq![58u8]);
            }
            let lt_len = lt.len();
            let hname_raw = bytes_range(lt.as_slice(), 0, i);
            let rest = bytes_range(lt.as_slice(), i + 1, lt_len);
            proof {
                assert(hname_raw@ =~= lt@.take(i as int));
                assert(rest@ =~= lt@.skip(i + 1));
            }
            let hname = trim_bytes(hname_raw.as_slice());
            let seg = match find_byte(rest.as_slice(), 58) {
                Some(j) => {
                    proof {
                        lemma_find_sub_characterization(rest@, seq![58u8]);
                    }
                    let s = bytes_range(rest.as_slice(), 0, j);
                    proof {
                        assert(s@ =~= rest@.take(j as int));
                    }
                    s
                },
                None => rest,
            };
            let value_t = trim_bytes(seg.as_slice());
            let mut cdn: Vec<u8> = Vec::new();
            cdn.push(99);
            cdn.push(111);
            cdn.push(110);
            cdn.push(116);
            cdn.push(101);
            cdn.push(110);
            cdn.push(116);
            cdn.push(45);
            cdn.push(100);
            cdn.push(105);
            cdn.push(115);
            cdn.push(112);
            cdn.push(111);
            cdn.push(115);
            cdn.push(105);
            cdn.push(116);
            cdn.push(105);
            cdn.push(111);
            cdn.push(110);
            proof {
                assert(cdn@ =~= cd_name());
            }
            let mut ctn: Vec<u8> = Vec::new();
            ctn.push(99);
            ctn.push(111);
            ctn.push(110);
            ctn.push(116);
            ctn.push(101);
            ctn.push(110);
            ctn.push(116);
            ctn.push(45);
            ctn.push(116);
            ctn.push(121);
            ctn.push(112);
            ctn.push(101);
            proof {
                assert(ctn@ =~= ct_name());
            }
            if eq_ignore_ascii_case(hname.as_slice(), cdn.as_slice()) {
                parse_cd_bytes(value_t.as_slice(), form_part);
            } else if eq_ignore_ascii_case(hname.as_slice(), ctn.as_slice()) {
                let ct = bytes_to_string_lossy(value_t.as_slice());
                parse_content_type(ct.as_str(), form_part);
            }
        },
        None => {},
    }
}

/// Reads one line of a part's header block into the part: the name before
/// the first `:` picks the header (ignoring ASCII case), and unknown
/// headers are ignored.
pub fn parse_header_line(line: &str, form_part: &mut FormPart)
    ensures
        final(form_part).temp_file == old(form_part).temp_file,
        final(form_part).value == old(form_part).value,
        header_model_of(*final(form_part)) == part_header_line_spec(
            vstd::utf8::encode_utf8(line@),
            header_model_of(*old(form_part)),
        ),
{
    part_header_line_exec(line.as_bytes(), form_part);
}

/// Parses a complete part header block (the text before the blank line)
/// into a fresh part: its `Content-Disposition` attributes and its
/// `Content-Type`.
pub fn parse_form_part_header(part_header: String) -> (r: Result<
    FormPart,
    MultipartFormDataError,
>)
    ensures
        r matches Ok(p) && header_model_of(p) == part_header_spec(
            vstd::utf8::encode_utf8(part_header@),
        ) && p.temp_file is None && p.value is None,
{
    let mut form_part = FormPart::empty();
    let bytes = part_header.as_str().as_bytes();
    let ghost full = bytes@;
    let n = bytes.len();
    let needle = crate::headers::crlf_needle_pub();
    let mut pos: usize = 0;
    proof {
        assert(full.skip(0) =~= full);
        assert(header_model_of(form_part) =~= empty_part_model());
    }
    loop
        invariant
            0 <= pos <= n,
            n == full.len(),
            bytes@ == full,
            full == vstd::utf8::encode_utf8(part_header@),
            needle@ == crate::headers::crlf(),
            form_part.temp_file is None,
            form_part.value is None,
            fold_part_lines(full, empty_part_model()) == fold_part_lines(
                full.skip(pos as int),
                header_model_of(form_part),
            ),
        decreases full.len() - pos,
    {
        let rem = bytes_range(bytes, pos, n);
        proof {
            assert(rem@ =~= full.skip(pos as int));
        }
        match find_subslice(rem.as_slice(), needle.as_slice()) {
            Some(i) => {
                proof {
                    lemma_find_sub_characterization(rem@, crate::headers::crlf());
                }
                let line = bytes_range(rem.as_slice(), 0, i);
                proof {
                    assert(line@ =~= rem@.take(i as int));
                }
                part_header_line_exec(line.as_slice(), &mut form_part);
                proof {
                    assert(full.skip(pos + i + 2) =~= rem@.skip(i + 2));
                }
                pos = pos + i + 2;
            },
            None => {
                part_header_line_exec(rem.as_slice(), &mut form_part);
                return Ok(form_part);
            },
        }
    }
}

} // verus!
