//! Spooling to temporary files.
//!
//! Large uploaded parts are written to anonymous temporary files instead of
//! memory.  `SpoolFile` holds the `tempfile` crate's temporary-file handle;
//! the handle is opaque here, so `file_bytes` and `file_cursor` name what
//! it holds and where its read/write position stands, and the wrappers
//! below state how creating, writing, rewinding and reading act on them.

use std::io::Read;
use std::io::Seek;
use std::io::Write;
use vstd::prelude::*;

verus! {

/// A temporary file used as a spool buffer.  Relies on
/// tempfile::NamedTempFile for the underlying handle; the file is deleted
/// when the value is dropped.
#[verifier::external_body]
pub struct SpoolFile {
    inner: tempfile::NamedTempFile,
}

/// The bytes stored in the temporary file.
pub uninterp spec fn file_bytes(f: SpoolFile) -> Seq<u8>;

/// The file's current read/write position.
pub uninterp spec fn file_cursor(f: SpoolFile) -> int;

impl SpoolFile {
    /// Relies on tempfile::NamedTempFile::new: a newly created temporary
    /// file is empty, with the position at its start.  `None` when the
    /// file could not be created.
    #[verifier::external_body]
    pub fn create() -> (r: Option<SpoolFile>)
        ensures
            r matches Some(f) ==> file_bytes(f) == Seq::<u8>::empty() && file_cursor(f) == 0,
    {
        match tempfile::NamedTempFile::new() {
            Ok(f) => Some(SpoolFile { inner: f }),
            Err(_) => None,
        }
    }

    /// Relies on std::io::Write::write_all through
    /// tempfile::NamedTempFile: with the position at the end, a successful
    /// call appends exactly the given bytes.  After a failed call nothing
    /// is known of the file.
    #[verifier::external_body]
    pub fn write_all(&mut self, data: &[u8]) -> (r: bool)
        requires
            file_cursor(*old(self)) == file_bytes(*old(self)).len(),
        ensures
            r ==> file_bytes(*final(self)) == file_bytes(*old(self)) + data@ && file_cursor(
                *final(self),
            ) == file_bytes(*final(self)).len(),
    {
        self.inner.write_all(data).is_ok()
    }

    /// Relies on std::io::Seek::rewind through tempfile::NamedTempFile: a
    /// successful call moves the position to the start and leaves the
    /// contents unchanged.  After a failed call the contents are still
    /// unchanged but nothing is known of the position.
    #[verifier::external_body]
    pub fn rewind(&mut self) -> (r: bool)
        ensures
            r ==> file_bytes(*final(self)) == file_bytes(*old(self)) && file_cursor(
                *final(self),
            ) == 0,
            !r ==> file_bytes(*final(self)) == file_bytes(*old(self)),
    {
        self.inner.rewind().is_ok()
    }

    /// Relies on std::io::Read::read_to_end through
    /// tempfile::NamedTempFile: a successful call returns every byte from
    /// the current position to the end and leaves the position there.
    #[verifier::external_body]
    pub fn read_remaining(&mut self) -> (r: Option<Vec<u8>>)
        ensures
            r matches Some(v) ==> {
                &&& 0 <= file_cursor(*old(self)) <= file_bytes(*old(self)).len()
                &&& v@ == file_bytes(*old(self)).skip(file_cursor(*old(self)))
                &&& file_bytes(*final(self)) == file_bytes(*old(self))
                &&& file_cursor(*final(self)) == file_bytes(*final(self)).len()
            },
    {
        let mut v = Vec::new();
        match self.inner.read_to_end(&mut v) {
            Ok(_) => Some(v),
            Err(_) => None,
        }
    }
}

} // verus!
