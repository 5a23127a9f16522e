//! Parsing of `application/x-www-form-urlencoded` request bodies: the
//! whole body (declared by `Content-Length` and bounded by a size limit)
//! is buffered and decoded into a multi-valued mapping.

use vstd::prelude::*;
use crate::multimap::{mm_string_view, MultiMap};
use crate::parser::multipart::ChunkReader;
use crate::parser::parse_url_encoded_spec;

verus! {

/// Failures while decoding a url-encoded body.
#[derive(Debug)]
pub enum UrlEncodedFormDataError {
    /// The request body is not x-www-form-urlencoded.
    InvalidFormat(&'static str),
    /// There is no Content-Length header.
    ContentLengthMissing(&'static str),
    /// The request could not be parsed.
    ParsingError(&'static str),
    /// The request body is larger than the configured limit.
    MaxBodySizeExceed(&'static str),
    /// More data was needed than the body holds.
    BodyReadEnd,
    /// Any other failure.
    Others(&'static str),
}

/// Size ceiling for a url-encoded body.
pub struct Limits {
    pub max_body_size: usize,
}

/// Decoded form fields: a multi-valued mapping keyed by the decoded name.
pub type FormFields = MultiMap<String>;

/// A source of url-encoded body bytes.  `remaining` is the sequence of
/// bytes the source still holds; a chunk is always a non-empty prefix of
/// it, and reading past the end fails with `BodyReadEnd`.
pub trait StreamReader: Sized {
    spec fn remaining(&self) -> Seq<u8>;

    fn get_chunk(&mut self) -> (r: Result<Vec<u8>, UrlEncodedFormDataError>)
        ensures
            old(self).remaining().len() == 0 ==> (r matches Err(e) && e is BodyReadEnd)
                && final(self).remaining() == old(self).remaining(),
            old(self).remaining().len() > 0 ==> (r matches Ok(c) && c@.len() > 0 && c@.len()
                <= old(self).remaining().len() && c@ == old(self).remaining().take(
                c@.len() as int,
            ) && final(self).remaining() == old(self).remaining().skip(c@.len() as int)),
    ;

    fn get_exact(&mut self, size: usize) -> (r: Result<Vec<u8>, UrlEncodedFormDataError>)
        ensures
            size <= old(self).remaining().len() ==> (r matches Ok(c) && c@ == old(
                self,
            ).remaining().take(size as int)) && final(self).remaining() == old(
                self,
            ).remaining().skip(size as int),
            size > old(self).remaining().len() ==> (r matches Err(e) && e is BodyReadEnd)
                && final(self).remaining() == old(self).remaining(),
    ;
}

impl StreamReader for ChunkReader {
    open spec fn remaining(&self) -> Seq<u8> {
        self.remaining_bytes()
    }

    fn get_chunk(&mut self) -> (r: Result<Vec<u8>, UrlEncodedFormDataError>) {
        match self.take_chunk() {
            Ok(c) => Ok(c),
            Err(_) => Err(UrlEncodedFormDataError::BodyReadEnd),
        }
    }

    fn get_exact(&mut self, size: usize) -> (r: Result<Vec<u8>, UrlEncodedFormDataError>) {
        match self.take_exact(size) {
            Ok(c) => Ok(c),
            Err(_) => Err(UrlEncodedFormDataError::BodyReadEnd),
        }
    }
}

/// A length-capped view of an inner byte source: reads stop at the
/// declared content length, counting from the bytes already consumed.
pub struct UrlEncodedReader<R> {
    pub inner: R,
    pub content_length: usize,
    /// Bytes of the body that were already consumed.
    pub bytes_read: usize,
    pub body_ended: bool,
}

impl<R: StreamReader> UrlEncodedReader<R> {
    /// Wraps `inner`, with `bytes_read` bytes of the body consumed
    /// before it.
    pub fn new(inner: R, content_length: usize, bytes_read: usize) -> (r: UrlEncodedReader<R>)
        ensures
            r.inner == inner,
            r.content_length == content_length,
            r.bytes_read == bytes_read,
            r.body_ended == (bytes_read == content_length),
    {
        let body_ended = bytes_read == content_length;
        UrlEncodedReader { inner, content_length, bytes_read, body_ended }
    }

    /// Accounts for a chunk and marks the body ended once the count
    /// reaches the declared length.
    fn update_read_status(&mut self, n: usize)
        requires
            old(self).bytes_read + n <= usize::MAX,
        ensures
            final(self).inner == old(self).inner,
            final(self).content_length == old(self).content_length,
            final(self).bytes_read == old(self).bytes_read + n,
            final(self).body_ended == (old(self).body_ended || old(self).bytes_read + n >= old(
                self,
            ).content_length),
    {
        self.bytes_read = self.bytes_read + n;
        if self.bytes_read >= self.content_length {
            self.body_ended = true;
        }
    }
}

impl<R: StreamReader> UrlEncodedReader<R> {
    /// The bytes this length-capped view still offers.
    pub open spec fn capped_remaining(&self) -> Seq<u8> {
        if self.body_ended || self.bytes_read >= self.content_length {
            Seq::empty()
        } else {
            let cap = self.content_length - self.bytes_read;
            let ir = self.inner.remaining();
            if ir.len() <= cap {
                ir
            } else {
                ir.take(cap)
            }
        }
    }

    /// Reads the next chunk: once the body has ended (the count reached
    /// the declared length) the read fails with `BodyReadEnd`, as it does
    /// when the source is exhausted; otherwise a non-empty chunk within
    /// the declared length comes back, the byte count advances by exactly
    /// its length, and the body is marked ended once the count reaches
    /// the length.
    pub fn read_chunk(&mut self) -> (r: Result<Vec<u8>, UrlEncodedFormDataError>)
        ensures
            final(self).content_length == old(self).content_length,
            old(self).body_ended || old(self).bytes_read >= old(self).content_length ==> (
            r matches Err(e) && e is BodyReadEnd) && *final(self) == *old(self),
            !(old(self).body_ended || old(self).bytes_read >= old(self).content_length) ==> ({
                let ir = old(self).inner.remaining();
                if ir.len() == 0 {
                    (r matches Err(e) && e is BodyReadEnd) && final(self).bytes_read == old(
                        self,
                    ).bytes_read && final(self).body_ended == old(self).body_ended
                } else {
                    r matches Ok(c) && c@.len() > 0 && old(self).bytes_read + c@.len() <= old(
                        self,
                    ).content_length && final(self).bytes_read == old(self).bytes_read + c@.len()
                        && final(self).body_ended == (old(self).bytes_read + c@.len() >= old(
                        self,
                    ).content_length)
                }
            }),
            old(self).capped_remaining().len() == 0 ==> (r matches Err(e) && e is BodyReadEnd)
                && final(self).capped_remaining() == old(self).capped_remaining(),
            old(self).capped_remaining().len() > 0 ==> (r matches Ok(c) && c@.len() > 0
                && c@.len() <= old(self).capped_remaining().len() && c@ == old(
                self,
            ).capped_remaining().take(c@.len() as int) && final(self).capped_remaining() == old(
                self,
            ).capped_remaining().skip(c@.len() as int)),
    {
        if self.body_ended || self.bytes_read >= self.content_length {
            return Err(UrlEncodedFormDataError::BodyReadEnd);
        }
        let cap = self.content_length - self.bytes_read;
        let mut chunk = match self.inner.get_chunk() {
            Ok(c) => c,
            Err(e) => {
                return Err(e);
            },
        };
        let t = if chunk.len() < cap {
            chunk.len()
        } else {
            cap
        };
        chunk.truncate(t);
        self.update_read_status(t);
        proof {
            assert(chunk@ =~= old(self).capped_remaining().take(t as int));
            assert(self.capped_remaining() =~= old(self).capped_remaining().skip(t as int));
        }
        Ok(chunk)
    }

    /// Reads exactly `size` bytes under the declared length, advancing
    /// the byte count by `size` on success.
    pub fn read_exact(&mut self, size: usize) -> (r: Result<Vec<u8>, UrlEncodedFormDataError>)
        ensures
            final(self).content_length == old(self).content_length,
            r matches Ok(c) ==> c@.len() == size && final(self).bytes_read == (
            if size == 0 && (old(self).body_ended || old(self).bytes_read >= old(
                self,
            ).content_length) {
                old(self).bytes_read as int
            } else {
                old(self).bytes_read + size
            }),
            size <= old(self).capped_remaining().len() ==> (r matches Ok(c) && c@ == old(
                self,
            ).capped_remaining().take(size as int)) && final(self).capped_remaining() == old(
                self,
            ).capped_remaining().skip(size as int),
            size > old(self).capped_remaining().len() ==> (r matches Err(e) && e is BodyReadEnd)
                && final(self).capped_remaining() == old(self).capped_remaining(),
    {
        if self.body_ended || self.bytes_read >= self.content_length {
            if size == 0 {
                let r: Vec<u8> = Vec::new();
                proof {
                    assert(r@ =~= old(self).capped_remaining().take(0));
                    assert(self.capped_remaining() =~= old(self).capped_remaining().skip(0));
                }
                return Ok(r);
            }
            return Err(UrlEncodedFormDataError::BodyReadEnd);
        }
        let cap = self.content_length - self.bytes_read;
        if size > cap {
            return Err(UrlEncodedFormDataError::BodyReadEnd);
        }
        match self.inner.get_exact(size) {
            Ok(c) => {
                self.update_read_status(size);
                proof {
                    assert(c@ =~= old(self).capped_remaining().take(size as int));
                    assert(self.capped_remaining() =~= old(self).capped_remaining().skip(
                        size as int,
                    ));
                }
                Ok(c)
            },
            Err(e) => Err(e),
        }
    }
}

impl<R: StreamReader> StreamReader for UrlEncodedReader<R> {
    open spec fn remaining(&self) -> Seq<u8> {
        self.capped_remaining()
    }

    fn get_chunk(&mut self) -> (r: Result<Vec<u8>, UrlEncodedFormDataError>) {
        self.read_chunk()
    }

    fn get_exact(&mut self, size: usize) -> (r: Result<Vec<u8>, UrlEncodedFormDataError>) {
        self.read_exact(size)
    }
}

/// Decodes a url-encoded request body: the `Content-Length` header must
/// be present and within the limit; the body is the already-read
/// `partial_bytes` followed by the reader's bytes, up to the declared
/// length, and parses into a multi-valued mapping with percent-decoded
/// names and values.
pub fn parse<T: StreamReader>(
    partial_bytes: Vec<u8>,
    headers: &crate::headers::Headers,
    reader: &mut T,
    limits: Limits,
) -> (r: Result<FormFields, UrlEncodedFormDataError>)
    requires
        partial_bytes@.len() + old(reader).remaining().len() <= usize::MAX,
    ensures
        ({
            let hv = mm_string_view(headers.entries());
            match crate::headers::content_length_spec(hv) {
                None => r matches Err(e) && e is ContentLengthMissing,
                Some(cl) => {
                    if cl > limits.max_body_size {
                        r matches Err(e) && e is MaxBodySizeExceed
                    } else {
                        let data = partial_bytes@ + old(reader).remaining();
                        if data.len() >= cl {
                            r matches Ok(fields) && mm_string_view(fields.entries())
                                == parse_url_encoded_spec(data.take(cl))
                        } else {
                            r matches Err(e) && e is BodyReadEnd
                        }
                    }
                },
            }
        }),
{
    let ghost data = partial_bytes@ + old(reader).remaining();
    let content_length = match crate::headers::content_length(headers) {
        Some(cl) => cl,
        None => {
            return Err(
                UrlEncodedFormDataError::ContentLengthMissing("Content-Length header is missing."),
            );
        },
    };
    if content_length > limits.max_body_size {
        return Err(
            UrlEncodedFormDataError::MaxBodySizeExceed(
                "Request body size is larger than the limit.",
            ),
        );
    }
    let mut body_buffer = partial_bytes;
    proof {
        assert(body_buffer@ =~= data.take(body_buffer@.len() as int));
        assert(old(reader).remaining() =~= data.skip(body_buffer@.len() as int));
    }
    let mut bytes_read = body_buffer.len();
    // Load the whole request body into memory.
    while bytes_read < content_length
        invariant
            bytes_read == body_buffer@.len(),
            data == body_buffer@ + reader.remaining(),
            data == partial_bytes@ + old(reader).remaining(),
            data.len() <= usize::MAX,
            body_buffer@ == data.take(body_buffer@.len() as int),
            reader.remaining() == data.skip(body_buffer@.len() as int),
            crate::headers::content_length_spec(mm_string_view(headers.entries())) == Some(
                content_length as int,
            ),
            content_length <= limits.max_body_size,
        decreases data.len() - bytes_read,
    {
        match reader.get_chunk() {
            Ok(mut chunk) => {
                bytes_read = bytes_read + chunk.len();
                body_buffer.append(&mut chunk);
                proof {
                    assert(body_buffer@ =~= data.take(body_buffer@.len() as int));
                    assert(reader.remaining() =~= data.skip(body_buffer@.len() as int));
                }
            },
            Err(error) => {
                proof {
                    assert(data.len() == body_buffer@.len());
                }
                return Err(error);
            },
        }
    }
    body_buffer.truncate(content_length);
    proof {
        assert(body_buffer@ =~= data.take(content_length as int));
    }
    let form_values = crate::parser::parse_url_encoded_bytes(body_buffer.as_slice());
    Ok(form_values)
}

} // verus!
