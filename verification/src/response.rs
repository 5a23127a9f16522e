//! The response object: status, headers and body, and their serialization
//! into the HTTP/1.1 wire form.

use vstd::prelude::*;
use vstd::string::StringExecFns;
use vstd::utf8::encode_utf8;
use crate::headers::Headers;
use crate::multimap::{mm_set_first, mm_string_view, MultiMap};
use crate::request::{should_close_spec, Request};
use crate::status::{status_text_spec, Status, StatusCode, StatusMethods};
use crate::text::{str_eq, usize_to_string, dec_str};

verus! {

/// One response under construction: the owning request, the response
/// headers, the status code, and the body text.
pub struct Response {
    pub request: Request,
    pub headers: Option<Headers>,
    pub status: Option<usize>,
    pub fixed_content: Option<String>,
}

/// The status line: `HTTP/1.1 <code> <reason>\r\n`, with the reason from
/// the status table and `Custom Status` for an unknown code.
pub open spec fn status_line_chars(code: int) -> Seq<char> {
    let reason = match status_text_spec(code) {
        Some(t) => t,
        None => "Custom Status"@,
    };
    "HTTP/1.1 "@ + dec_str(code as nat) + " "@ + reason + "\r\n"@
}

/// One header name serialised with each of its values, one line per
/// value, in order.
pub open spec fn render_values(k: Seq<char>, vs: Seq<Seq<char>>) -> Seq<char>
    decreases vs.len(),
{
    if vs.len() == 0 {
        Seq::empty()
    } else {
        k + ": "@ + vs[0] + "\r\n"@ + render_values(k, vs.skip(1))
    }
}

/// Every header entry serialised in insertion order.
pub open spec fn render_entries(m: Seq<(Seq<char>, Seq<Seq<char>>)>) -> Seq<char>
    decreases m.len(),
{
    if m.len() == 0 {
        Seq::empty()
    } else {
        render_values(m[0].0, m[0].1) + render_entries(m.skip(1))
    }
}

/// The full response head: status line, header lines, and the blank line.
pub open spec fn response_head_chars(code: int, m: Seq<(Seq<char>, Seq<Seq<char>>)>) -> Seq<char> {
    status_line_chars(code) + render_entries(m) + "\r\n"@
}

impl Response {
    /// A response for the given request, with nothing set yet.
    pub fn new(request: Request) -> (r: Response)
        ensures
            r.request == request,
            r.headers is None,
            r.status is None,
            r.fixed_content is None,
    {
        Response { request, headers: None, status: None, fixed_content: None }
    }

    fn init_headers(&mut self)
        ensures
            final(self).request == old(self).request,
            final(self).status == old(self).status,
            final(self).fixed_content == old(self).fixed_content,
            final(self).headers matches Some(h) && h.entries() == (match old(self).headers {
                Some(h0) => h0.entries(),
                None => Seq::<(Seq<char>, Seq<Vec<u8>>)>::empty().map(
                    |i: int, p: (Seq<char>, Seq<Vec<u8>>)| (p.0, Seq::<String>::empty()),
                ),
            }),
    {
        match &self.headers {
            Some(_) => {},
            None => {
                let h: Headers = MultiMap::new();
                proof {
                    assert(h.entries() =~= Seq::<(Seq<char>, Seq<Vec<u8>>)>::empty().map(
                        |i: int, p: (Seq<char>, Seq<Vec<u8>>)| (p.0, Seq::<String>::empty()),
                    ));
                }
                self.headers = Some(h);
            },
        }
    }

    /// Sets the `Content-Type` header, replacing any earlier value.
    pub fn set_content_type(&mut self, text: &str)
        ensures
            final(self).request == old(self).request,
            final(self).status == old(self).status,
            final(self).fixed_content == old(self).fixed_content,
            final(self).headers matches Some(h) && mm_string_view(h.entries()) == mm_set_first(
                (match old(self).headers {
                    Some(h0) => mm_string_view(h0.entries()),
                    None => Seq::<(Seq<char>, Seq<Seq<char>>)>::empty(),
                }),
                "Content-Type"@,
                text@,
            ),
    {
        self.init_headers();
        match self.headers.as_mut() {
            Some(headers) => {
                let value = text.to_owned();
                proof {
                    crate::multimap::lemma_mm_set_first_string_view(
                        headers.entries(),
                        "Content-Type"@,
                        value,
                    );
                }
                headers.set_first("Content-Type".to_owned(), value);
            },
            None => {
                proof {
                    assert(false);
                }
            },
        }
    }

    /// Appends a header value; values under the same name accumulate.
    pub fn add_header(&mut self, name: &str, value: &str)
        ensures
            final(self).request == old(self).request,
            final(self).status == old(self).status,
            final(self).fixed_content == old(self).fixed_content,
            final(self).headers matches Some(h) && mm_string_view(h.entries())
                == crate::multimap::mm_append(
                (match old(self).headers {
                    Some(h0) => mm_string_view(h0.entries()),
                    None => Seq::<(Seq<char>, Seq<Seq<char>>)>::empty(),
                }),
                name@,
                value@,
            ),
    {
        self.init_headers();
        match self.headers.as_mut() {
            Some(headers) => {
                let value_string = value.to_owned();
                proof {
                    crate::multimap::lemma_mm_append_string_view(
                        headers.entries(),
                        name@,
                        value_string,
                    );
                }
                headers.append(name.to_owned(), value_string);
            },
            None => {
                proof {
                    assert(false);
                }
            },
        }
    }

    /// Sets the status and body.
    pub fn set_content(&mut self, status: usize, text: String)
        ensures
            final(self).request == old(self).request,
            final(self).headers == old(self).headers,
            final(self).status == Some(status),
            final(self).fixed_content matches Some(c) && c == text,
    {
        self.status = Some(status);
        self.fixed_content = Some(text);
    }

    /// An HTML response with the given status.
    pub fn html<T: StatusCode>(&mut self, status: T, text: String)
        ensures
            final(self).request == old(self).request,
            final(self).status == Some(status.as_code() as usize),
            final(self).fixed_content matches Some(c) && c == text,
            final(self).headers matches Some(h) && mm_string_view(h.entries()) == mm_set_first(
                (match old(self).headers {
                    Some(h0) => mm_string_view(h0.entries()),
                    None => Seq::<(Seq<char>, Seq<Seq<char>>)>::empty(),
                }),
                "Content-Type"@,
                "text/html"@,
            ),
    {
        let code = status.to_usize();
        self.set_content(code, text);
        self.set_content_type("text/html");
    }

    /// A JSON response with the given status.
    pub fn json<T: StatusCode>(&mut self, status: T, text: String)
        ensures
            final(self).request == old(self).request,
            final(self).status == Some(status.as_code() as usize),
            final(self).fixed_content matches Some(c) && c == text,
            final(self).headers matches Some(h) && mm_string_view(h.entries()) == mm_set_first(
                (match old(self).headers {
                    Some(h0) => mm_string_view(h0.entries()),
                    None => Seq::<(Seq<char>, Seq<Seq<char>>)>::empty(),
                }),
                "Content-Type"@,
                "application/json"@,
            ),
    {
        let code = status.to_usize();
        self.set_content(code, text);
        self.set_content_type("application/json");
    }

    /// Serialises the status line and the header lines, ending with the
    /// blank line.
    pub fn prepare_raw_headers(&self) -> (r: String)
        requires
            self.status is Some,
        ensures
            r@ == response_head_chars(
                self.status->0 as int,
                (match self.headers {
                    Some(h) => mm_string_view(h.entries()),
                    None => Seq::<(Seq<char>, Seq<Seq<char>>)>::empty(),
                }),
            ),
    {
        let status_code = match &self.status {
            Some(c) => *c,
            None => {
                proof {
                    assert(false);
                }
                0
            },
        };
        let mut status_text = Status::status_text(status_code);
        let reason = match status_text {
            Some(t) => t,
            None => String::from_str("Custom Status"),
        };
        let mut raw_headers = String::from_str("HTTP/1.1 ");
        let code_str = usize_to_string(status_code);
        raw_headers.append(code_str.as_str());
        raw_headers.append(" ");
        raw_headers.append(reason.as_str());
        raw_headers.append("\r\n");
        proof {
            assert(raw_headers@ =~= status_line_chars(status_code as int));
        }
        let ghost code = self.status->0 as int;
        match &self.headers {
            Some(headers) => {
                let ghost hv = mm_string_view(headers.entries());
                let n = headers.pairs.len();
                let mut i: usize = 0;
                proof {
                    assert(hv.len() == n);
                    assert(hv.skip(0) =~= hv);
                    assert(status_line_chars(code) + render_entries(hv) =~= raw_headers@
                        + render_entries(hv.skip(0)));
                }
                while i < n
                    invariant
                        0 <= i <= n,
                        n == headers.pairs@.len(),
                        hv == mm_string_view(headers.entries()),
                        hv.len() == n,
                        status_line_chars(code) + render_entries(hv) == raw_headers@
                            + render_entries(hv.skip(i as int)),
                    decreases n - i,
                {
                    let ghost entry = hv[i as int];
                    proof {
                        assert(headers.entries()[i as int] == (
                            headers.pairs@[i as int].0@,
                            headers.pairs@[i as int].1@,
                        ));
                        assert(hv.skip(i as int)[0] == entry);
                        assert(hv.skip(i as int).skip(1) =~= hv.skip(i + 1));
                        assert(render_entries(hv.skip(i as int)) == render_values(
                            entry.0,
                            entry.1,
                        ) + render_entries(hv.skip(i + 1)));
                    }
                    let pair = &headers.pairs[i];
                    let vn = pair.1.len();
                    let mut j: usize = 0;
                    proof {
                        assert(entry.1 =~= pair.1@.map(|k: int, s: String| s@));
                        assert(entry.1.skip(0) =~= entry.1);
                    }
                    while j < vn
                        invariant
                            0 <= j <= vn,
                            vn == pair.1@.len(),
                            entry.0 == pair.0@,
                            entry.1 == pair.1@.map(|k: int, s: String| s@),
                            status_line_chars(code) + render_entries(hv) == raw_headers@
                                + render_values(entry.0, entry.1.skip(j as int)) + render_entries(
                                hv.skip(i + 1),
                            ),
                        decreases vn - j,
                    {
                        let ghost raw0 = raw_headers@;
                        raw_headers.append(pair.0.as_str());
                        raw_headers.append(": ");
                        raw_headers.append(pair.1[j].as_str());
                        raw_headers.append("\r\n");
                        proof {
                            let vs = entry.1.skip(j as int);
                            assert(vs[0] == entry.1[j as int]);
                            assert(entry.1[j as int] == pair.1@[j as int]@);
                            assert(vs.skip(1) =~= entry.1.skip(j + 1));
                            assert(render_values(entry.0, vs) == entry.0 + ": "@ + vs[0] + "\r\n"@
                                + render_values(entry.0, entry.1.skip(j + 1)));
                            assert(raw_headers@ =~= raw0 + entry.0 + ": "@ + vs[0] + "\r\n"@);
                            assert(raw_headers@ + render_values(entry.0, entry.1.skip(j + 1))
                                + render_entries(hv.skip(i + 1)) =~= raw0 + render_values(
                                entry.0,
                                vs,
                            ) + render_entries(hv.skip(i + 1)));
                        }
                        j = j + 1;
                    }
                    proof {
                        assert(entry.1.skip(vn as int) =~= Seq::<Seq<char>>::empty());
                        assert(render_values(entry.0, entry.1.skip(vn as int)) =~= Seq::<
                            char,
                        >::empty());
                        assert(raw_headers@ + render_values(entry.0, entry.1.skip(vn as int))
                            + render_entries(hv.skip(i + 1)) =~= raw_headers@ + render_entries(
                            hv.skip(i + 1),
                        ));
                    }
                    i = i + 1;
                }
                proof {
                    assert(hv.skip(n as int) =~= Seq::<(Seq<char>, Seq<Seq<char>>)>::empty());
                    assert(render_entries(hv.skip(n as int)) =~= Seq::<char>::empty());
                    assert(status_line_chars(code) + render_entries(hv) =~= raw_headers@);
                }
            },
            None => {
                proof {
                    assert(render_entries(Seq::<(Seq<char>, Seq<Seq<char>>)>::empty()) =~= Seq::<
                        char,
                    >::empty());
                    assert(status_line_chars(code) + render_entries(
                        Seq::<(Seq<char>, Seq<Seq<char>>)>::empty(),
                    ) =~= raw_headers@);
                }
            },
        }
        let ghost head0 = raw_headers@;
        raw_headers.append("\r\n");
        proof {
            assert(raw_headers@ =~= head0 + "\r\n"@);
            assert(raw_headers@ =~= response_head_chars(
                code,
                (match self.headers {
                    Some(h) => mm_string_view(h.entries()),
                    None => Seq::<(Seq<char>, Seq<Seq<char>>)>::empty(),
                }),
            ));
        }
        raw_headers
    }

    /// Assembles every byte written for this response, and whether the
    /// connection is to be closed afterwards: the head gets
    /// `Content-Length` set to the body's byte length and, when the
    /// connection stays open, `Connection: keep-alive`; the body follows
    /// unless the request method is `HEAD`.
    pub fn build_output(&mut self) -> (r: (Vec<u8>, bool))
        requires
            old(self).status is Some,
            old(self).fixed_content is Some,
        ensures
            ({
                let hv0 = match old(self).headers {
                    Some(h) => mm_string_view(h.entries()),
                    None => Seq::<(Seq<char>, Seq<Seq<char>>)>::empty(),
                };
                let content = old(self).fixed_content->0;
                let close = should_close_spec(
                    mm_string_view(old(self).request.headers.entries()),
                    old(self).request.body_read,
                );
                let hv1 = mm_set_first(
                    hv0,
                    "Content-Length"@,
                    dec_str(encode_utf8(content@).len() as usize as nat),
                );
                let hv2 = if !close {
                    mm_set_first(hv1, "Connection"@, "keep-alive"@)
                } else {
                    hv1
                };
                &&& r.1 == close
                &&& r.0@ == encode_utf8(
                    response_head_chars(old(self).status->0 as int, hv2),
                ) + (if old(self).request.method@ == "HEAD"@ {
                    Seq::<u8>::empty()
                } else {
                    encode_utf8(content@)
                })
            }),
    {
        let ghost hv0 = match old(self).headers {
            Some(h) => mm_string_view(h.entries()),
            None => Seq::<(Seq<char>, Seq<Seq<char>>)>::empty(),
        };
        let should_close = self.request.should_close_connection();
        self.init_headers();
        proof {
            match old(self).headers {
                Some(_) => {},
                None => {
                    assert(mm_string_view((self.headers->0).entries()) =~= hv0);
                },
            }
            assert(mm_string_view((self.headers->0).entries()) == hv0);
        }
        let content_len = match &self.fixed_content {
            Some(c) => c.as_str().len(),
            None => {
                proof {
                    assert(false);
                }
                0
            },
        };
        let cl_string = usize_to_string(content_len);
        match self.headers.as_mut() {
            Some(headers) => {
                proof {
                    crate::multimap::lemma_mm_set_first_string_view(
                        headers.entries(),
                        "Content-Length"@,
                        cl_string,
                    );
                }
                headers.set_first("Content-Length".to_owned(), cl_string);
            },
            None => {
                proof {
                    assert(false);
                }
            },
        }
        if !should_close {
            match self.headers.as_mut() {
                Some(headers) => {
                    let ka = String::from_str("keep-alive");
                    proof {
                        crate::multimap::lemma_mm_set_first_string_view(
                            headers.entries(),
                            "Connection"@,
                            ka,
                        );
                    }
                    headers.set_first("Connection".to_owned(), ka);
                },
                None => {
                    proof {
                        assert(false);
                    }
                },
            }
        }
        let head = self.prepare_raw_headers();
        let mut out: Vec<u8> = Vec::new();
        out.extend_from_slice(head.as_str().as_bytes());
        let is_head = str_eq(self.request.method.as_str(), "HEAD");
        if !is_head {
            match &self.fixed_content {
                Some(content) => {
                    out.extend_from_slice(content.as_str().as_bytes());
                    proof {
                        assert(out@ =~= encode_utf8(head@) + encode_utf8(content@));
                    }
                },
                None => {
                    proof {
                        assert(false);
                    }
                },
            }
        } else {
            proof {
                assert(out@ =~= encode_utf8(head@) + Seq::<u8>::empty());
            }
        }
        proof {
            let code = old(self).status->0 as int;
            let content0 = old(self).fixed_content->0;
            let close = should_close_spec(
                mm_string_view(old(self).request.headers.entries()),
                old(self).request.body_read,
            );
            let hv1 = mm_set_first(
                hv0,
                "Content-Length"@,
                dec_str(encode_utf8(content0@).len() as usize as nat),
            );
            let hv2 = if !close {
                mm_set_first(hv1, "Connection"@, "keep-alive"@)
            } else {
                hv1
            };
            assert(should_close == close);
            assert(mm_string_view((self.headers->0).entries()) == hv2);
            assert(head@ == response_head_chars(code, hv2));
            assert(out@ == encode_utf8(response_head_chars(code, hv2)) + (
            if old(self).request.method@ == "HEAD"@ {
                Seq::<u8>::empty()
            } else {
                encode_utf8(content0@)
            }));
        }
        (out, should_close)
    }
}

} // verus!
