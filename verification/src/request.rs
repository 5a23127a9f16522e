//! The request object: parsed head, query parameters, and lazy decoding
//! of the request body into form data and uploaded files.

pub mod form;

use vstd::prelude::*;
use vstd::utf8::encode_utf8;
use crate::headers::{content_length, content_length_spec, Headers};
use crate::multimap::{
    first_value, lemma_mm_append_string_view, mm_append, mm_string_view, MultiMap,
};
use crate::parser::multipart;
use crate::parser::multipart::{FormPart, MultipartFormDataError};
use crate::parser::parse_url_encoded_spec;
use crate::parser::url_encoded;
use crate::parser::url_encoded::{FormFields, UrlEncodedFormDataError, UrlEncodedReader};
use crate::parser::body;
use crate::parser::body::BodyReader;
use crate::request::form::{FormData, FormFile, FormFiles};
use crate::scan::{bytes_range, find_byte, find_sub, lemma_find_sub_characterization, starts_with};
use crate::spool::{file_bytes, file_cursor, SpoolFile};
use crate::text::{bytes_to_string_lossy, eq_ignore_ascii_case, eq_ignore_ascii_case_spec, lossy_utf8, trim_bytes, trim_spec};

verus! {

/// Query parameters decoded from the raw path.
pub type QueryParams = MultiMap<String>;

/// One parsed request: the head as received, and the body decoded on
/// demand.  `body_read` records that no further body bytes remain to be
/// read for this request; `body_parsed` that the body was also decoded
/// cleanly.
pub struct Request {
    pub method: String,
    pub raw_path: String,
    pub pathname: String,
    pub query_params: QueryParams,
    pub headers: Headers,
    pub partial_body: Option<Vec<u8>>,
    pub form_data: FormData,
    pub form_files: FormFiles,
    pub body_read: bool,
    pub body_parsed: bool,
}

/// The path part of a raw path: everything before the first `?`.
pub open spec fn pathname_spec(s: Seq<char>) -> Seq<char> {
    let b = encode_utf8(s);
    match find_sub(b, seq![63u8]) {
        Some(i) => lossy_utf8(b.take(i)),
        None => s,
    }
}

/// The request methods that carry no body unless a length is declared.
pub open spec fn is_bodiless_method(m: Seq<char>) -> bool {
    let b = encode_utf8(m);
    ||| eq_ignore_ascii_case_spec(b, encode_utf8("GET"@))
    ||| eq_ignore_ascii_case_spec(b, encode_utf8("HEAD"@))
    ||| eq_ignore_ascii_case_spec(b, encode_utf8("OPTIONS"@))
    ||| eq_ignore_ascii_case_spec(b, encode_utf8("DELETE"@))
    ||| eq_ignore_ascii_case_spec(b, encode_utf8("TRACE"@))
    ||| eq_ignore_ascii_case_spec(b, encode_utf8("CONNECT"@))
}

/// Whether the connection must be closed after responding: it stays open
/// only when the `Connection` header says `keep-alive` (ignoring ASCII
/// case) and the body was fully read.
pub open spec fn should_close_spec(hv: Seq<(Seq<char>, Seq<Seq<char>>)>, body_read: bool) -> bool {
    match first_value(hv, "Connection"@) {
        Some(v) => !(eq_ignore_ascii_case_spec(encode_utf8(v), encode_utf8("keep-alive"@))
            && body_read),
        None => true,
    }
}

/// Without a `Connection` header the connection is closed, whatever the
/// body-read state.
pub proof fn lemma_close_without_connection(
    hv: Seq<(Seq<char>, Seq<Seq<char>>)>,
    body_read: bool,
)
    requires
        first_value(hv, "Connection"@) is None,
    ensures
        should_close_spec(hv, body_read) == true,
{
}

/// One decoded value part folded into the form-data mapping.
pub open spec fn data_into(
    p: FormPart,
    m: Seq<(Seq<char>, Seq<Seq<char>>)>,
) -> Seq<(Seq<char>, Seq<Seq<char>>)> {
    match p.name {
        Some(nm) => match p.value {
            Some(v) => mm_append(m, nm@, lossy_utf8(v@)),
            None => m,
        },
        None => m,
    }
}

/// The form-data mapping collected from a list of parts, in order.
pub open spec fn fold_parts_data(
    ps: Seq<FormPart>,
    m: Seq<(Seq<char>, Seq<Seq<char>>)>,
) -> Seq<(Seq<char>, Seq<Seq<char>>)>
    decreases ps.len(),
{
    if ps.len() == 0 {
        m
    } else {
        fold_parts_data(ps.skip(1), data_into(ps[0], m))
    }
}

/// One decoded file part folded into the uploaded-files mapping.
pub open spec fn files_into(
    p: FormPart,
    m: Seq<(Seq<char>, Seq<FormFile>)>,
) -> Seq<(Seq<char>, Seq<FormFile>)> {
    match p.name {
        Some(nm) => {
            if p.value is None {
                match (p.filename, p.temp_file) {
                    (Some(fnm), Some(tf)) => mm_append(
                        m,
                        nm@,
                        FormFile { filename: fnm, temp_file: tf },
                    ),
                    _ => m,
                }
            } else {
                m
            }
        },
        None => m,
    }
}

/// The uploaded-files mapping collected from a list of parts, in order.
pub open spec fn fold_parts_files(
    ps: Seq<FormPart>,
    m: Seq<(Seq<char>, Seq<FormFile>)>,
) -> Seq<(Seq<char>, Seq<FormFile>)>
    decreases ps.len(),
{
    if ps.len() == 0 {
        m
    } else {
        fold_parts_files(ps.skip(1), files_into(ps[0], m))
    }
}

/// What a returned spooled body holds: a prefix of the partial body
/// followed by the stream's bytes, at least as long as the declared
/// content length, rewound to the start.
pub open spec fn body_result_post(
    old_req: Request,
    stream: Seq<u8>,
    cl: int,
    r: Option<SpoolFile>,
) -> bool {
    let partial = match old_req.partial_body {
        Some(b) => b@,
        None => Seq::<u8>::empty(),
    };
    let data = partial + stream;
    match r {
        Some(f) => {
            let fb = file_bytes(f);
            &&& file_cursor(f) == 0
            &&& partial.len() <= fb.len() <= data.len()
            &&& fb.len() >= cl
            &&& fb == data.take(fb.len() as int)
        },
        None => true,
    }
}

/// The partial body after a decoder drained it: an empty buffer where
/// one was stored, nothing where nothing was.
pub open spec fn drained_partial(pre: Option<Vec<u8>>, post: Option<Vec<u8>>) -> bool {
    match (pre, post) {
        (Some(b0), Some(b1)) => b1@ == Seq::<u8>::empty(),
        (None, None) => true,
        _ => false,
    }
}

/// The form mappings are the folds of some list of decoded parts that
/// carry exactly the given models: the same names, filenames, content
/// types and content bytes, file parts spooled and rewound.
pub open spec fn maps_match_models(
    ms: Seq<multipart::PartModel>,
    data_view: Seq<(Seq<char>, Seq<Seq<char>>)>,
    files: Seq<(Seq<char>, Seq<FormFile>)>,
) -> bool {
    exists|ps: Seq<FormPart>|
        ps.len() == ms.len() && (forall|i: int|
            0 <= i < ms.len() ==> multipart::part_models(#[trigger] ps[i], ms[i])) && data_view
            == fold_parts_data(ps, Seq::empty()) && files == fold_parts_files(ps, Seq::empty())
}

/// What decoding the request body does to the request, writing `mp_rem`
/// and `ue_rem` for the bytes the multipart and url-encoded sources hold:
/// the head is untouched; without a `Content-Type` nothing happens; a
/// multipart body is decoded with the engine's limits (one-megabyte part
/// headers, half-gigabyte bodies, no per-field limits) and the mappings
/// are the folds of the decoded parts, staying unchanged on a failed
/// decode; a url-encoded body with a declared length within two
/// megabytes decodes into the form data; any other content type changes
/// nothing.
pub open spec fn parse_body_post(
    pre: Request,
    mp_rem: Seq<u8>,
    ue_rem: Seq<u8>,
    post: Request,
) -> bool {
    let hv = mm_string_view(pre.headers.entries());
    let ct = first_value(hv, "Content-Type"@);
    let partial = match pre.partial_body {
        Some(b) => b@,
        None => Seq::<u8>::empty(),
    };
    &&& post.method == pre.method
    &&& post.raw_path == pre.raw_path
    &&& post.pathname == pre.pathname
    &&& post.query_params == pre.query_params
    &&& post.headers == pre.headers
    &&& (ct is None ==> post == pre)
    &&& (ct matches Some(c) ==> {
        let ctb = trim_spec(encode_utf8(c));
        let mp = encode_utf8("multipart/form-data;"@);
        let ue = encode_utf8("application/x-www-form-urlencoded"@);
        if ctb.len() >= mp.len() && ctb.take(mp.len() as int) == mp {
            let maps_unchanged = post.form_data == pre.form_data && post.form_files
                == pre.form_files;
            &&& post.body_read
            &&& post.body_parsed
            &&& (match multipart::extract_boundary_spec(encode_utf8(c)) {
                None => maps_unchanged && post.partial_body == pre.partial_body,
                Some(x) => {
                    let bb = encode_utf8(lossy_utf8(x));
                    let data = partial + mp_rem;
                    let no_field_limits = Seq::<(Seq<char>, Seq<multipart::FormPartLimit>)>::empty();
                    &&& drained_partial(pre.partial_body, post.partial_body)
                    &&& (if (content_length_spec(hv) matches Some(cl) && cl > 0x20000000) {
                        maps_unchanged
                    } else {
                        match multipart::parse_multipart_spec(
                            data,
                            bb,
                            Some(0x100000 as int),
                            no_field_limits,
                        ) {
                            multipart::MultipartOutcome::Parts(ms) => maps_match_models(
                                ms,
                                post.form_data_view(),
                                post.form_files_entries(),
                            ) || (multipart::multipart_reaches_file(
                                data,
                                bb,
                                Some(0x100000 as int),
                                no_field_limits,
                            ) && maps_unchanged),
                            multipart::MultipartOutcome::Fail(k) => maps_unchanged,
                        }
                    })
                },
            })
        } else if ctb.len() >= ue.len() && ctb.take(ue.len() as int) == ue {
            match content_length_spec(hv) {
                None => post == pre,
                Some(cl) => {
                    let data = partial + ue_rem;
                    &&& post.body_read
                    &&& post.form_files == pre.form_files
                    &&& drained_partial(pre.partial_body, post.partial_body)
                    &&& (cl <= 0x200000 && data.len() >= cl ==> post.body_parsed
                        && post.form_data_view() == parse_url_encoded_spec(data.take(cl)))
                },
            }
        } else {
            post == pre
        }
    })
}

impl Request {
    /// The decoded form data held so far.
    pub open spec fn form_data_view(&self) -> Seq<(Seq<char>, Seq<Seq<char>>)> {
        mm_string_view(self.form_data.entries())
    }

    /// The uploaded files held so far.
    pub open spec fn form_files_entries(&self) -> Seq<(Seq<char>, Seq<FormFile>)> {
        self.form_files.entries()
    }

    /// Builds a request from its parsed request line and headers: the
    /// pathname is the raw path up to the first `?`, the query parameters
    /// decode from what follows it, and no body has been read yet.
    pub fn new(request_method: String, raw_path: String, headers: Headers) -> (r: Request)
        ensures
            r.method == request_method,
            r.raw_path == raw_path,
            r.pathname@ == pathname_spec(raw_path@),
            mm_string_view(r.query_params.entries()) == crate::headers::query_params_spec(
                raw_path@,
            ),
            r.headers == headers,
            r.partial_body is None,
            r.form_data_view() == Seq::<(Seq<char>, Seq<Seq<char>>)>::empty(),
            r.form_files_entries() == Seq::<(Seq<char>, Seq<FormFile>)>::empty(),
            r.body_read == false,
            r.body_parsed == false,
    {
        let form_data = FormData::new();
        let form_files = FormFiles::new();
        let pathname = Self::pathname_from_raw(&raw_path);
        let query_params = crate::headers::query_params_from_raw(&raw_path);
        proof {
            assert(mm_string_view(form_data.entries()) =~= Seq::<(
                Seq<char>,
                Seq<Seq<char>>,
            )>::empty());
        }
        Request {
            method: request_method,
            raw_path,
            pathname,
            query_params,
            headers,
            partial_body: None,
            form_data,
            form_files,
            body_read: false,
            body_parsed: false,
        }
    }

    fn pathname_from_raw(raw_path: &String) -> (r: String)
        ensures
            r@ == pathname_spec(raw_path@),
    {
        let bytes = raw_path.as_str().as_bytes();
        match find_byte(bytes, 63) {
            Some(i) => {
                proof {
                    lemma_find_sub_characterization(bytes@, seq![63u8]);
                }
                let prefix = bytes_range(bytes, 0, i);
                proof {
                    assert(prefix@ =~= bytes@.take(i as int));
                }
                bytes_to_string_lossy(prefix.as_slice())
            },
            None => raw_path.clone(),
        }
    }

    /// Marks the body as read for methods that carry none, when no length
    /// is declared.
    pub fn setup(&mut self)
        ensures
            final(self).body_read == (old(self).body_read || (is_bodiless_method(
                old(self).method@,
            ) && content_length_spec(mm_string_view(old(self).headers.entries())) is None)),
            final(self).method == old(self).method,
            final(self).raw_path == old(self).raw_path,
            final(self).pathname == old(self).pathname,
            final(self).query_params == old(self).query_params,
            final(self).headers == old(self).headers,
            final(self).partial_body == old(self).partial_body,
            final(self).form_data == old(self).form_data,
            final(self).form_files == old(self).form_files,
            final(self).body_parsed == old(self).body_parsed,
    {
        let mb = self.method.as_str().as_bytes();
        let bodiless = eq_ignore_ascii_case(mb, "GET".as_bytes()) || eq_ignore_ascii_case(
            mb,
            "HEAD".as_bytes(),
        ) || eq_ignore_ascii_case(mb, "OPTIONS".as_bytes()) || eq_ignore_ascii_case(
            mb,
            "DELETE".as_bytes(),
        ) || eq_ignore_ascii_case(mb, "TRACE".as_bytes()) || eq_ignore_ascii_case(
            mb,
            "CONNECT".as_bytes(),
        );
        if bodiless {
            // The same connection can serve further requests, since
            // without a declared length these methods carry no body.
            match content_length(&self.headers) {
                Some(_) => {},
                None => {
                    self.body_read = true;
                },
            }
        }
    }

    /// Records body bytes that were read past the header terminator.
    pub fn set_partial_body_bytes(&mut self, bytes: Vec<u8>)
        ensures
            final(self).partial_body matches Some(b) && b@ == bytes@,
            final(self).method == old(self).method,
            final(self).raw_path == old(self).raw_path,
            final(self).pathname == old(self).pathname,
            final(self).query_params == old(self).query_params,
            final(self).headers == old(self).headers,
            final(self).form_data == old(self).form_data,
            final(self).form_files == old(self).form_files,
            final(self).body_read == old(self).body_read,
            final(self).body_parsed == old(self).body_parsed,
    {
        self.partial_body = Some(bytes);
    }

    /// Streams the request body to a temporary file: only when the body
    /// has not been read yet and a `Content-Length` is declared; the file
    /// holds the already-read partial body followed by the reader's
    /// bytes, at least as many as declared, rewound to the start.
    #[verifier::rlimit(100)]
    #[verifier::spinoff_prover]
    pub fn body<T: body::StreamReader>(&mut self, reader: T) -> (r: Option<SpoolFile>)
        requires
            (match old(self).partial_body {
                Some(b) => b@.len(),
                None => 0,
            }) + reader.remaining().len() <= usize::MAX,
        ensures
            old(self).body_read ==> r is None && *final(self) == *old(self),
            !old(self).body_read && content_length_spec(
                mm_string_view(old(self).headers.entries()),
            ) is None ==> r is None && *final(self) == *old(self),
            r is Some ==> final(self).body_read && final(self).body_parsed,
            ({
                let cls = content_length_spec(mm_string_view(old(self).headers.entries()));
                cls is Some && !old(self).body_read ==> final(self).body_read && drained_partial(
                    old(self).partial_body,
                    final(self).partial_body,
                ) && final(self).body_parsed == (old(self).body_parsed || r is Some)
            }),
            ({
                let cls = content_length_spec(mm_string_view(old(self).headers.entries()));
                match cls {
                    Some(cl) => !old(self).body_read ==> body_result_post(
                        *old(self),
                        reader.remaining(),
                        cl,
                        r,
                    ),
                    None => true,
                }
            }),
    {
        if self.body_read {
            return None;
        }
        let content_length = match content_length(&self.headers) {
            Some(cl) => cl,
            None => {
                return None;
            },
        };
        let limits = body::Limits { max_body_size: 0x20000000 };
        let mut partial_bytes: Vec<u8> = Vec::new();
        match self.partial_body.as_mut() {
            Some(partial) => {
                partial_bytes.append(partial);
            },
            None => {},
        }
        let bytes_read = partial_bytes.len();
        let ghost partial0 = partial_bytes@;
        let body_reader = BodyReader::new(reader, content_length, bytes_read, limits);
        let ghost brrem = body::StreamReader::remaining(&body_reader);
        proof {
            // The wrapped reader hands out a prefix of the raw reader's
            // bytes, so the spooled file's contents are a prefix of the
            // partial body followed by the raw reader's bytes.
            if partial0.len() >= body_reader.bound() {
                assert(brrem =~= reader.remaining().take(0));
            } else {
                let cap = body_reader.bound() - partial0.len();
                if reader.remaining().len() <= cap {
                    assert(brrem =~= reader.remaining().take(reader.remaining().len() as int));
                } else {
                    assert(brrem =~= reader.remaining().take(cap));
                }
            }
        }
        let parse_result = body::parse(partial_bytes, &self.headers, body_reader);
        self.body_read = true;
        match parse_result {
            Ok(temp_file) => {
                proof {
                    let partial = match old(self).partial_body {
                        Some(b) => b@,
                        None => Seq::<u8>::empty(),
                    };
                    assert(partial == partial0);
                    let data0 = partial + reader.remaining();
                    let datap = partial0 + brrem;
                    let ghost_l = choose|l: int|
                        0 <= l <= reader.remaining().len() && brrem == reader.remaining().take(l);
                    assert(datap =~= data0.take(partial0.len() + ghost_l));
                    let n = choose|n: int|
                        partial0.len() <= n <= datap.len() && n >= content_length && file_bytes(
                            temp_file,
                        ) == datap.take(n) && file_cursor(temp_file) == 0;
                    assert(datap.take(n) =~= data0.take(n));
                    assert(partial.len() <= n <= data0.len() && n >= content_length
                        && file_bytes(temp_file) == data0.take(n));
                    assert(file_bytes(temp_file).len() == n);
                    assert(file_cursor(temp_file) == 0);
                }
                self.body_parsed = true;
                Some(temp_file)
            },
            Err(_) => None,
        }
    }

    /// The decoded form data, parsing the body first if it has not been
    /// read yet.  Once the body has been read the stored mapping is
    /// returned unchanged, so a second call returns the same mapping.
    pub fn form_data<T: multipart::StreamReader + url_encoded::StreamReader>(
        &mut self,
        reader: T,
    ) -> (r: &FormData)
        requires
            (match old(self).partial_body {
                Some(b) => b@.len(),
                None => 0,
            }) + multipart::StreamReader::remaining(&reader).len() <= usize::MAX,
            (match old(self).partial_body {
                Some(b) => b@.len(),
                None => 0,
            }) + url_encoded::StreamReader::remaining(&reader).len() <= usize::MAX,
        ensures
            old(self).body_read ==> *final(self) == *old(self),
            !old(self).body_read ==> parse_body_post(
                *old(self),
                multipart::StreamReader::remaining(&reader),
                url_encoded::StreamReader::remaining(&reader),
                *final(self),
            ),
            *r == final(self).form_data,
            final(self).method == old(self).method,
            final(self).raw_path == old(self).raw_path,
            final(self).pathname == old(self).pathname,
            final(self).query_params == old(self).query_params,
            final(self).headers == old(self).headers,
    {
        if !self.body_read {
            self.parse_request_body(reader);
        }
        &self.form_data
    }

    /// The uploaded files, parsing the body first if it has not been read
    /// yet.  Once the body has been read the stored mapping is returned
    /// unchanged.
    pub fn files<T: multipart::StreamReader + url_encoded::StreamReader>(
        &mut self,
        reader: T,
    ) -> (r: &FormFiles)
        requires
            (match old(self).partial_body {
                Some(b) => b@.len(),
                None => 0,
            }) + multipart::StreamReader::remaining(&reader).len() <= usize::MAX,
            (match old(self).partial_body {
                Some(b) => b@.len(),
                None => 0,
            }) + url_encoded::StreamReader::remaining(&reader).len() <= usize::MAX,
        ensures
            old(self).body_read ==> *final(self) == *old(self),
            !old(self).body_read ==> parse_body_post(
                *old(self),
                multipart::StreamReader::remaining(&reader),
                url_encoded::StreamReader::remaining(&reader),
                *final(self),
            ),
            *r == final(self).form_files,
            final(self).method == old(self).method,
            final(self).raw_path == old(self).raw_path,
            final(self).pathname == old(self).pathname,
            final(self).query_params == old(self).query_params,
            final(self).headers == old(self).headers,
    {
        if !self.body_read {
            self.parse_request_body(reader);
        }
        &self.form_files
    }

    /// Decodes the request body by its `Content-Type`: multipart bodies
    /// go through the boundary state machine, url-encoded bodies are
    /// buffered and decoded, and anything else leaves the request as it
    /// is.  After a multipart or length-carrying url-encoded body the
    /// body counts as read.
    pub fn parse_request_body<T: multipart::StreamReader + url_encoded::StreamReader>(
        &mut self,
        reader: T,
    )
        requires
            (match old(self).partial_body {
                Some(b) => b@.len(),
                None => 0,
            }) + multipart::StreamReader::remaining(&reader).len() <= usize::MAX,
            (match old(self).partial_body {
                Some(b) => b@.len(),
                None => 0,
            }) + url_encoded::StreamReader::remaining(&reader).len() <= usize::MAX,
        ensures
            parse_body_post(
                *old(self),
                multipart::StreamReader::remaining(&reader),
                url_encoded::StreamReader::remaining(&reader),
                *final(self),
            ),
    {
        let content_type = match crate::headers::extract_content_type(&self.headers) {
            Some(ct) => ct,
            None => {
                return ;
            },
        };
        let ct_trimmed = trim_bytes(content_type.as_str().as_bytes());
        if starts_with(ct_trimmed.as_slice(), "multipart/form-data;".as_bytes()) {
            let limits = multipart::Limits {
                max_body_size: Some(0x20000000),
                max_header_size: Some(0x100000),
                form_part_limits: MultiMap::new(),
            };
            let ghost flg = limits.form_part_limits.entries();
            proof {
                assert(flg =~= Seq::<(Seq<char>, Seq<multipart::FormPartLimit>)>::empty());
            }
            let result = self.multipart_form_data(content_type, reader, limits);
            // The body was consumed, whatever came of decoding it.
            self.body_read = true;
            match result {
                Ok(form_parts) => {
                    let ghost psg = form_parts@;
                    let (form_data, form_files) = Self::multipart_form_data_and_files(form_parts);
                    self.body_parsed = true;
                    self.form_data = form_data;
                    self.form_files = form_files;
                    proof {
                        let hv = mm_string_view(old(self).headers.entries());
                        let partial = match old(self).partial_body {
                            Some(b) => b@,
                            None => Seq::<u8>::empty(),
                        };
                        let data = partial + multipart::StreamReader::remaining(&reader);
                        match first_value(hv, "Content-Type"@) {
                            Some(c) => {
                                match multipart::extract_boundary_spec(encode_utf8(c)) {
                                    Some(x) => {
                                        let bb = encode_utf8(lossy_utf8(x));
                                        match multipart::parse_multipart_spec(
                                            data,
                                            bb,
                                            Some(0x100000 as int),
                                            Seq::<(
                                                Seq<char>,
                                                Seq<multipart::FormPartLimit>,
                                            )>::empty(),
                                        ) {
                                            multipart::MultipartOutcome::Parts(ms) => {
                                                assert(maps_match_models(
                                                    ms,
                                                    self.form_data_view(),
                                                    self.form_files_entries(),
                                                )) by {
                                                    assert(psg.len() == ms.len() && (forall|
                                                        i: int,
                                                    |
                                                        0 <= i < ms.len()
                                                            ==> multipart::part_models(
                                                            #[trigger] psg[i],
                                                            ms[i],
                                                        )) && self.form_data_view()
                                                        == fold_parts_data(psg, Seq::empty())
                                                        && self.form_files_entries()
                                                        == fold_parts_files(psg, Seq::empty()));
                                                }
                                            },
                                            multipart::MultipartOutcome::Fail(k) => {
                                                assert(false);
                                            },
                                        }
                                    },
                                    None => {
                                        assert(false);
                                    },
                                }
                            },
                            None => {
                                assert(false);
                            },
                        }
                    }
                },
                Err(_) => {
                    self.body_parsed = true;
                },
            }
        } else if starts_with(
            ct_trimmed.as_slice(),
            "application/x-www-form-urlencoded".as_bytes(),
        ) {
            let limits = url_encoded::Limits { max_body_size: 0x200000 };
            let content_length = match content_length(&self.headers) {
                Some(cl) => cl,
                None => {
                    return ;
                },
            };
            let result = self.parse_url_encoded(content_length, reader, limits);
            self.body_read = true;
            match result {
                Ok(form_fields) => {
                    self.body_parsed = true;
                    self.form_data = form_fields;
                },
                Err(_) => {},
            }
        }
    }

    /// Decodes a multipart body with the boundary taken from the given
    /// `Content-Type` value, draining the partial body first: the result
    /// matches the multipart decode of the drained partial body followed
    /// by the reader's bytes, under the given limits; only a
    /// temporary-file failure on a decode that reaches a file part
    /// escapes that correspondence.
    pub fn multipart_form_data<T: multipart::StreamReader>(
        &mut self,
        content_type: String,
        reader: T,
        limits: multipart::Limits,
    ) -> (r: Result<Vec<FormPart>, MultipartFormDataError>)
        requires
            (match old(self).partial_body {
                Some(b) => b@.len(),
                None => 0,
            }) + multipart::StreamReader::remaining(&reader).len() <= usize::MAX,
        ensures
            final(self).method == old(self).method,
            final(self).raw_path == old(self).raw_path,
            final(self).pathname == old(self).pathname,
            final(self).query_params == old(self).query_params,
            final(self).headers == old(self).headers,
            final(self).form_data == old(self).form_data,
            final(self).form_files == old(self).form_files,
            final(self).body_read == old(self).body_read,
            final(self).body_parsed == old(self).body_parsed,
            ({
                let hv = mm_string_view(old(self).headers.entries());
                let partial = match old(self).partial_body {
                    Some(b) => b@,
                    None => Seq::<u8>::empty(),
                };
                let data = partial + multipart::StreamReader::remaining(&reader);
                match multipart::extract_boundary_spec(encode_utf8(content_type@)) {
                    None => (r matches Err(e) && e is Others) && final(self).partial_body == old(
                        self,
                    ).partial_body,
                    Some(x) => {
                        &&& drained_partial(old(self).partial_body, final(self).partial_body)
                        &&& (match first_value(hv, "Content-Type"@) {
                            None => r matches Err(e) && e is InvalidMultiPart,
                            Some(ct2) => match multipart::extract_boundary_spec(
                                encode_utf8(ct2),
                            ) {
                                None => r matches Err(e) && e is InvalidMultiPart,
                                Some(x2) => {
                                    let bb2 = encode_utf8(lossy_utf8(x2));
                                    if (limits.max_body_size matches Some(mb)
                                        && content_length_spec(hv) matches Some(cl) && cl > mb) {
                                        r matches Err(e) && e is MaxBodySizeExceed
                                    } else {
                                        multipart::outcome_matches(
                                            r,
                                            multipart::parse_multipart_spec(
                                                data,
                                                bb2,
                                                limits.max_header_int(),
                                                limits.form_part_limits.entries(),
                                            ),
                                        ) || ((r matches Err(e) && e is Others)
                                            && multipart::multipart_reaches_file(
                                            data,
                                            bb2,
                                            limits.max_header_int(),
                                            limits.form_part_limits.entries(),
                                        ))
                                    }
                                },
                            },
                        })
                    },
                }
            }),
    {
        let boundary = match multipart::extract_boundary(&content_type) {
            Some(b) => b,
            None => {
                return Err(MultipartFormDataError::Others("Boundary is missing from Content-Type"));
            },
        };
        let mut partial_body: Vec<u8> = Vec::new();
        match self.partial_body.as_mut() {
            Some(partial) => {
                partial_body.append(partial);
            },
            None => {},
        }
        multipart::parse(partial_body, &self.headers, reader, limits)
    }

    /// Buffers and decodes a url-encoded body of the given declared
    /// length, draining the partial body first.
    pub fn parse_url_encoded<T: url_encoded::StreamReader>(
        &mut self,
        content_length: usize,
        reader: T,
        limits: url_encoded::Limits,
    ) -> (r: Result<FormFields, UrlEncodedFormDataError>)
        requires
            (match old(self).partial_body {
                Some(b) => b@.len(),
                None => 0,
            }) + url_encoded::StreamReader::remaining(&reader).len() <= usize::MAX,
        ensures
            final(self).method == old(self).method,
            final(self).raw_path == old(self).raw_path,
            final(self).pathname == old(self).pathname,
            final(self).query_params == old(self).query_params,
            final(self).headers == old(self).headers,
            final(self).form_data == old(self).form_data,
            final(self).form_files == old(self).form_files,
            final(self).body_read == old(self).body_read,
            final(self).body_parsed == old(self).body_parsed,
            drained_partial(old(self).partial_body, final(self).partial_body),
            ({
                let hv = mm_string_view(old(self).headers.entries());
                let partial = match old(self).partial_body {
                    Some(b) => b@,
                    None => Seq::<u8>::empty(),
                };
                let data = partial + url_encoded::StreamReader::remaining(&reader);
                content_length_spec(hv) == Some(content_length as int) && content_length
                    <= limits.max_body_size && data.len() >= content_length ==> (r matches Ok(
                    fields,
                ) && mm_string_view(fields.entries()) == parse_url_encoded_spec(
                    data.take(content_length as int),
                ))
            }),
    {
        let mut partial_bytes: Vec<u8> = Vec::new();
        match self.partial_body.as_mut() {
            Some(partial_body) => {
                partial_bytes.append(partial_body);
            },
            None => {},
        }
        let ghost partial0 = partial_bytes@;
        let bytes_read = partial_bytes.len();
        let mut wrapped = UrlEncodedReader::new(reader, content_length, bytes_read);
        let ghost wrem = url_encoded::StreamReader::remaining(&wrapped);
        proof {
            if wrapped.body_ended || wrapped.bytes_read >= wrapped.content_length {
                assert(wrem =~= url_encoded::StreamReader::remaining(&reader).take(0));
            } else {
                let cap = wrapped.content_length - wrapped.bytes_read;
                let ir = url_encoded::StreamReader::remaining(&reader);
                if ir.len() <= cap {
                    assert(wrem =~= ir.take(ir.len() as int));
                } else {
                    assert(wrem =~= ir.take(cap));
                }
            }
        }
        let max_body_size = limits.max_body_size;
        let r = url_encoded::parse(partial_bytes, &self.headers, &mut wrapped, limits);
        proof {
            let hv = mm_string_view(self.headers.entries());
            let ir = url_encoded::StreamReader::remaining(&reader);
            let data = partial0 + ir;
            let datap = partial0 + wrem;
            if content_length_spec(hv) == Some(content_length as int) && content_length
                <= max_body_size && data.len() >= content_length {
                let l = choose|l: int| 0 <= l <= ir.len() && wrem == ir.take(l);
                assert(datap =~= data.take(partial0.len() + l));
                if partial0.len() >= content_length {
                    assert(datap.len() >= content_length);
                } else {
                    // The wrapper holds the rest of the declared length,
                    // as far as the raw reader reaches.
                    assert(datap.len() >= content_length);
                }
                assert(datap.take(content_length as int) =~= data.take(content_length as int));
            }
        }
        r
    }

    /// Splits a list of decoded parts into the value mapping and the file
    /// mapping, in source order: parts without a name are dropped, parts
    /// with an in-memory value feed the form data, and parts with a
    /// filename feed the files.
    pub fn multipart_form_data_and_files(form_parts: Vec<FormPart>) -> (r: (FormData, FormFiles))
        ensures
            mm_string_view(r.0.entries()) == fold_parts_data(form_parts@, Seq::empty()),
            r.1.entries() == fold_parts_files(form_parts@, Seq::empty()),
    {
        let ghost all = form_parts@;
        let mut parts = form_parts;
        let mut form_data = FormData::new();
        let mut form_files = FormFiles::new();
        proof {
            assert(mm_string_view(form_data.entries()) =~= Seq::<(
                Seq<char>,
                Seq<Seq<char>>,
            )>::empty());
            assert(all.skip(0) =~= all);
        }
        loop
            invariant
                all == form_parts@,
                parts@.len() <= all.len(),
                parts@ == all.skip(all.len() - parts@.len()),
                fold_parts_data(all, Seq::empty()) == fold_parts_data(
                    parts@,
                    mm_string_view(form_data.entries()),
                ),
                fold_parts_files(all, Seq::empty()) == fold_parts_files(
                    parts@,
                    form_files.entries(),
                ),
            decreases parts@.len(),
        {
            if parts.len() == 0 {
                return (form_data, form_files);
            }
            let ghost rest0 = parts@;
            let form_part = parts.remove(0);
            proof {
                assert(parts@ =~= all.skip(all.len() - parts@.len()));
                assert(rest0[0] == all[all.len() - rest0.len()]);
            }
            match form_part.name {
                Some(name) => {
                    match form_part.value {
                        Some(value_bytes) => {
                            let value = bytes_to_string_lossy(value_bytes.as_slice());
                            proof {
                                lemma_mm_append_string_view(form_data.entries(), name@, value);
                            }
                            form_data.append(name, value);
                        },
                        None => {
                            match (form_part.filename, form_part.temp_file) {
                                (Some(filename), Some(temp_file)) => {
                                    form_files.append(name, FormFile { filename, temp_file });
                                },
                                _ => {},
                            }
                        },
                    }
                },
                None => {},
            }
        }
    }

    /// A copy of the request's head and body flags for the response
    /// side; the decoded form data and files are not copied.
    pub fn clone_head(&self) -> (r: Request)
        ensures
            r.method@ == self.method@,
            r.raw_path@ == self.raw_path@,
            r.pathname@ == self.pathname@,
            r.query_params.entries() == self.query_params.entries(),
            r.headers.entries() == self.headers.entries(),
            match (r.partial_body, self.partial_body) {
                (Some(a), Some(b)) => a@ == b@,
                (None, None) => true,
                _ => false,
            },
            r.form_data_view() == Seq::<(Seq<char>, Seq<Seq<char>>)>::empty(),
            r.form_files_entries() == Seq::<(Seq<char>, Seq<FormFile>)>::empty(),
            r.body_read == self.body_read,
            r.body_parsed == self.body_parsed,
    {
        let partial_body = match &self.partial_body {
            Some(b) => {
                let n = b.len();
                let copy = bytes_range(b.as_slice(), 0, n);
                proof {
                    assert(copy@ =~= b@);
                }
                Some(copy)
            },
            None => None,
        };
        let form_data = FormData::new();
        let form_files = FormFiles::new();
        proof {
            assert(mm_string_view(form_data.entries()) =~= Seq::<(
                Seq<char>,
                Seq<Seq<char>>,
            )>::empty());
        }
        Request {
            method: self.method.clone(),
            raw_path: self.raw_path.clone(),
            pathname: self.pathname.clone(),
            query_params: self.query_params.duplicate(),
            headers: self.headers.duplicate(),
            partial_body,
            form_data,
            form_files,
            body_read: self.body_read,
            body_parsed: self.body_parsed,
        }
    }

    /// Whether the connection must be closed after this request.
    pub fn should_close_connection(&self) -> (r: bool)
        ensures
            r == should_close_spec(mm_string_view(self.headers.entries()), self.body_read),
    {
        match crate::headers::connection_type(&self.headers) {
            Some(connection_type) => {
                if eq_ignore_ascii_case(
                    connection_type.as_str().as_bytes(),
                    "keep-alive".as_bytes(),
                ) && self.body_read {
                    false
                } else {
                    true
                }
            },
            None => true,
        }
    }
}

} // verus!
