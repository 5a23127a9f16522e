//! Core of a small HTTP/1.1 request parsing and serving engine.
//!
//! The library covers the wire decoding work: extracting the request head
//! from a stream of socket reads, parsing the request line and headers,
//! decoding `application/x-www-form-urlencoded` bodies, and running the
//! streaming `multipart/form-data` boundary state machine that spools file
//! parts to temporary files.  Socket and thread handling live outside the
//! library; the parsers here consume bytes through small reader interfaces
//! with explicit contracts.

pub mod headers;
pub mod multimap;
pub mod parser;
pub mod paths;
pub mod spool;
pub mod status;
pub mod request;
pub mod response;
pub mod scan;
pub mod text;

use vstd::prelude::*;

verus! {

/// Per-connection context: the handler and the response signal through it
/// whether the connection loop may wait for another request on the same
/// socket.
pub struct Context {
    /// A same tcp stream can be used to serve multiple pages. Keeping
    /// `accept_next` set continues to use the same connection.  It must be
    /// cleared when the request body was not read completely.
    pub accept_next: bool,
}

impl Context {
    /// Tell the connection loop not to wait for a further request.
    pub fn dont_wait(&mut self)
        ensures
            final(self).accept_next == false,
    {
        self.accept_next = false;
    }
}

} // verus!
