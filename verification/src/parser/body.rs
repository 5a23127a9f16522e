//! Length-bounded body reading: a reader that enforces the declared
//! `Content-Length` and a size ceiling, and a parser that spools the body
//! to a temporary file.

use vstd::prelude::*;
use crate::multimap::mm_string_view;
use crate::parser::multipart::ChunkReader;
use crate::spool::{file_bytes, file_cursor, SpoolFile};

verus! {

/// Size ceiling for a request body.
pub struct Limits {
    pub max_body_size: usize,
}

/// Failures while reading a request body.
#[derive(Debug)]
pub enum BodyReadError {
    MaxBodySizeExceed,
    ContentLengthMissing,
    BodyAlreadyRead,
    Others(&'static str),
}

/// A source of body bytes.  `remaining` is the sequence of bytes the
/// source still holds; a chunk is always a non-empty prefix of it, and
/// reading past the end fails.
pub trait StreamReader: Sized {
    spec fn remaining(&self) -> Seq<u8>;

    fn get_chunk(&mut self) -> (r: Result<Vec<u8>, BodyReadError>)
        ensures
            old(self).remaining().len() == 0 ==> (r matches Err(e) && !(e is ContentLengthMissing))
                && final(self).remaining() == old(self).remaining(),
            old(self).remaining().len() > 0 ==> (r matches Ok(c) && c@.len() > 0 && c@.len()
                <= old(self).remaining().len() && c@ == old(self).remaining().take(
                c@.len() as int,
            ) && final(self).remaining() == old(self).remaining().skip(c@.len() as int)),
    ;

    fn get_exact(&mut self, size: usize) -> (r: Result<Vec<u8>, BodyReadError>)
        ensures
            size <= old(self).remaining().len() ==> (r matches Ok(c) && c@ == old(
                self,
            ).remaining().take(size as int)) && final(self).remaining() == old(
                self,
            ).remaining().skip(size as int),
            size > old(self).remaining().len() ==> (r matches Err(e) && !(
            e is ContentLengthMissing)) && final(self).remaining() == old(self).remaining(),
    ;
}

impl StreamReader for ChunkReader {
    open spec fn remaining(&self) -> Seq<u8> {
        self.remaining_bytes()
    }

    fn get_chunk(&mut self) -> (r: Result<Vec<u8>, BodyReadError>) {
        match self.take_chunk() {
            Ok(c) => Ok(c),
            Err(_) => Err(BodyReadError::Others("No bytes left in the body")),
        }
    }

    fn get_exact(&mut self, size: usize) -> (r: Result<Vec<u8>, BodyReadError>) {
        match self.take_exact(size) {
            Ok(c) => Ok(c),
            Err(_) => Err(BodyReadError::Others("No bytes left in the body")),
        }
    }
}

/// A view of an inner byte source bounded by the declared content length
/// and by the configured body size ceiling, counting from the bytes
/// already consumed.
pub struct BodyReader<R> {
    pub inner: R,
    pub content_length: usize,
    pub bytes_read: usize,
    pub limits: Limits,
}

impl<R: StreamReader> BodyReader<R> {
    /// Wraps `inner`, with `bytes_read` bytes of the body consumed before
    /// it.
    pub fn new(inner: R, content_length: usize, bytes_read: usize, limits: Limits) -> (r:
        BodyReader<R>)
        ensures
            r.inner == inner,
            r.content_length == content_length,
            r.bytes_read == bytes_read,
            r.limits == limits,
    {
        BodyReader { inner, content_length, bytes_read, limits }
    }

    /// The smaller of the declared length and the size ceiling.
    pub open spec fn bound(&self) -> int {
        if self.content_length <= self.limits.max_body_size {
            self.content_length as int
        } else {
            self.limits.max_body_size as int
        }
    }
}

impl<R: StreamReader> BodyReader<R> {
    /// The bytes this bounded view still offers.
    pub open spec fn bounded_remaining(&self) -> Seq<u8> {
        if self.bytes_read >= self.bound() {
            Seq::empty()
        } else {
            let cap = self.bound() - self.bytes_read;
            let ir = self.inner.remaining();
            if ir.len() <= cap {
                ir
            } else {
                ir.take(cap)
            }
        }
    }

    /// Reads the next chunk, enforcing the limits: reading past the
    /// declared length fails with `MaxBodySizeExceed`, reading past the
    /// size ceiling with `BodyAlreadyRead`, an exhausted source with
    /// `Others`; otherwise a non-empty chunk comes back and the byte
    /// count advances by exactly its length, never past the bound.
    pub fn read_chunk(&mut self) -> (r: Result<Vec<u8>, BodyReadError>)
        ensures
            final(self).content_length == old(self).content_length,
            final(self).limits == old(self).limits,
            old(self).bytes_read >= old(self).content_length ==> (r matches Err(e)
                && e is MaxBodySizeExceed) && *final(self) == *old(self),
            old(self).bytes_read < old(self).content_length && old(self).bytes_read >= old(
                self,
            ).limits.max_body_size ==> (r matches Err(e) && e is BodyAlreadyRead) && *final(self)
                == *old(self),
            old(self).bytes_read < old(self).content_length && old(self).bytes_read < old(
                self,
            ).limits.max_body_size ==> ({
                let ir = old(self).inner.remaining();
                if ir.len() == 0 {
                    (r matches Err(e) && e is Others) && final(self).bytes_read == old(
                        self,
                    ).bytes_read
                } else {
                    r matches Ok(c) && c@.len() > 0 && old(self).bytes_read + c@.len() <= old(
                        self,
                    ).bound() && final(self).bytes_read == old(self).bytes_read + c@.len()
                }
            }),
            old(self).bounded_remaining().len() == 0 ==> (r matches Err(e) && !(
            e is ContentLengthMissing)) && final(self).bounded_remaining() == old(
                self,
            ).bounded_remaining(),
            old(self).bounded_remaining().len() > 0 ==> (r matches Ok(c) && c@.len() > 0
                && c@.len() <= old(self).bounded_remaining().len() && c@ == old(
                self,
            ).bounded_remaining().take(c@.len() as int) && final(self).bounded_remaining() == old(
                self,
            ).bounded_remaining().skip(c@.len() as int)),
    {
        if self.bytes_read >= self.content_length {
            return Err(BodyReadError::MaxBodySizeExceed);
        }
        if self.bytes_read >= self.limits.max_body_size {
            return Err(BodyReadError::BodyAlreadyRead);
        }
        let cap = if self.content_length <= self.limits.max_body_size {
            self.content_length - self.bytes_read
        } else {
            self.limits.max_body_size - self.bytes_read
        };
        let mut chunk = match self.inner.get_chunk() {
            Ok(c) => c,
            Err(_) => {
                return Err(BodyReadError::Others("Unable to read from the body source"));
            },
        };
        let t = if chunk.len() < cap {
            chunk.len()
        } else {
            cap
        };
        chunk.truncate(t);
        self.bytes_read = self.bytes_read + t;
        proof {
            assert(chunk@ =~= old(self).bounded_remaining().take(t as int));
            assert(self.bounded_remaining() =~= old(self).bounded_remaining().skip(t as int));
        }
        Ok(chunk)
    }

    /// Reads exactly `size` bytes under the same limits: a request past
    /// the declared length or the bound fails with `MaxBodySizeExceed`,
    /// and the byte count advances by `size` on success.
    pub fn read_exact(&mut self, size: usize) -> (r: Result<Vec<u8>, BodyReadError>)
        ensures
            final(self).content_length == old(self).content_length,
            final(self).limits == old(self).limits,
            r matches Ok(c) ==> c@.len() == size && final(self).bytes_read == (
            if size == 0 {
                old(self).bytes_read as int
            } else {
                old(self).bytes_read + size
            }),
            size <= old(self).bounded_remaining().len() ==> (r matches Ok(c) && c@ == old(
                self,
            ).bounded_remaining().take(size as int)) && final(self).bounded_remaining() == old(
                self,
            ).bounded_remaining().skip(size as int),
            size > old(self).bounded_remaining().len() ==> (r matches Err(e) && !(
            e is ContentLengthMissing)) && final(self).bounded_remaining() == old(
                self,
            ).bounded_remaining(),
    {
        if size == 0 {
            let r: Vec<u8> = Vec::new();
            proof {
                assert(r@ =~= old(self).bounded_remaining().take(0));
                assert(self.bounded_remaining() =~= old(self).bounded_remaining().skip(0));
            }
            return Ok(r);
        }
        if self.bytes_read >= self.content_length {
            return Err(BodyReadError::MaxBodySizeExceed);
        }
        if self.bytes_read >= self.limits.max_body_size {
            return Err(BodyReadError::BodyAlreadyRead);
        }
        let cap = if self.content_length <= self.limits.max_body_size {
            self.content_length - self.bytes_read
        } else {
            self.limits.max_body_size - self.bytes_read
        };
        if size > cap {
            return Err(BodyReadError::MaxBodySizeExceed);
        }
        match self.inner.get_exact(size) {
            Ok(c) => {
                self.bytes_read = self.bytes_read + size;
                proof {
                    assert(c@ =~= old(self).bounded_remaining().take(size as int));
                    assert(self.bounded_remaining() =~= old(self).bounded_remaining().skip(
                        size as int,
                    ));
                }
                Ok(c)
            },
            Err(_) => Err(BodyReadError::Others("Unable to read from the body source")),
        }
    }
}

impl<R: StreamReader> StreamReader for BodyReader<R> {
    open spec fn remaining(&self) -> Seq<u8> {
        self.bounded_remaining()
    }

    fn get_chunk(&mut self) -> (r: Result<Vec<u8>, BodyReadError>) {
        self.read_chunk()
    }

    fn get_exact(&mut self, size: usize) -> (r: Result<Vec<u8>, BodyReadError>) {
        self.read_exact(size)
    }
}

/// Reads a request body to a temporary file: the already-read
/// `partial_bytes` are written first, then chunks are pulled until the
/// declared `Content-Length` is reached, and the file is rewound before
/// it is returned.  A missing `Content-Length` is rejected; a body that
/// ends early fails with the reader's error.
pub fn parse<T: StreamReader>(
    partial_bytes: Vec<u8>,
    headers: &crate::headers::Headers,
    reader: T,
) -> (r: Result<SpoolFile, BodyReadError>)
    requires
        partial_bytes@.len() + reader.remaining().len() <= usize::MAX,
    ensures
        ({
            let hv = mm_string_view(headers.entries());
            match crate::headers::content_length_spec(hv) {
                None => r matches Err(e) && e is ContentLengthMissing,
                Some(cl) => {
                    let data = partial_bytes@ + reader.remaining();
                    if data.len() >= cl {
                        (r matches Err(e) && e is Others) || (r matches Ok(f) && (exists|n: int|
                            partial_bytes@.len() <= n <= data.len() && n >= cl && file_bytes(f)
                                == data.take(n) && file_cursor(f) == 0))
                    } else {
                        r matches Err(e) && !(e is ContentLengthMissing)
                    }
                },
            }
        }),
{
    let mut rdr = reader;
    let ghost data = partial_bytes@ + rdr.remaining();
    let content_length = match crate::headers::content_length(headers) {
        Some(cl) => cl,
        None => {
            return Err(BodyReadError::ContentLengthMissing);
        },
    };
    let mut temp_file = match SpoolFile::create() {
        Some(t) => t,
        None => {
            return Err(BodyReadError::Others("Error creating temporary file"));
        },
    };
    let mut body_buffer = partial_bytes;
    let mut body_read = body_buffer.len();
    proof {
        assert(body_buffer@ =~= data.take(body_buffer@.len() as int));
        assert(rdr.remaining() =~= data.skip(body_buffer@.len() as int));
        assert(file_bytes(temp_file) =~= data.take(0).take(0));
        assert(data.take(0) =~= Seq::<u8>::empty());
    }
    loop
        invariant
            body_read == body_buffer@.len() + file_bytes(temp_file).len(),
            body_read <= data.len(),
            data == partial_bytes@ + reader.remaining(),
            data.len() <= usize::MAX,
            file_bytes(temp_file) == data.take(file_bytes(temp_file).len() as int),
            file_cursor(temp_file) == file_bytes(temp_file).len(),
            body_buffer@ == data.subrange(file_bytes(temp_file).len() as int, body_read as int),
            rdr.remaining() == data.skip(body_read as int),
            body_read >= partial_bytes@.len(),
            crate::headers::content_length_spec(mm_string_view(headers.entries())) == Some(
                content_length as int,
            ),
        decreases data.len() - body_read, body_buffer@.len(),
    {
        let ghost w0 = file_bytes(temp_file).len();
        if !temp_file.write_all(body_buffer.as_slice()) {
            return Err(BodyReadError::Others("Error writing to temporary file"));
        }
        proof {
            assert(file_bytes(temp_file) =~= data.take(body_read as int));
        }
        body_buffer.clear();
        if body_read >= content_length {
            if !temp_file.rewind() {
                return Err(BodyReadError::Others("Failed to seek temporary file"));
            }
            proof {
                assert(partial_bytes@.len() <= body_read <= data.len());
            }
            return Ok(temp_file);
        }
        match rdr.get_chunk() {
            Ok(mut chunk) => {
                body_read = body_read + chunk.len();
                body_buffer.append(&mut chunk);
                proof {
                    assert(body_buffer@ =~= data.subrange(
                        file_bytes(temp_file).len() as int,
                        body_read as int,
                    ));
                    assert(rdr.remaining() =~= data.skip(body_read as int));
                }
            },
            Err(error) => {
                proof {
                    assert(data.len() == body_read);
                }
                return Err(error);
            },
        }
    }
}

} // verus!
