//! Decoded form data as handlers see it: multi-valued mappings of field
//! values and of uploaded files.

use vstd::prelude::*;
use crate::multimap::{first_value, mm_get, mm_string_view, MultiMap};
use crate::spool::{file_bytes, file_cursor, SpoolFile};

verus! {

/// One uploaded file: its client-side name and the temporary file its
/// content was spooled to.
pub struct FormFile {
    pub filename: String,
    pub temp_file: SpoolFile,
}

/// A multi-valued string mapping with a first-value accessor.
pub type MapFirstString = MultiMap<String>;

/// First-value lookup on a string mapping.
pub trait MapFirstStringMethod: Sized {
    spec fn entries_view(&self) -> Seq<(Seq<char>, Seq<Seq<char>>)>;

    fn value(&self, name: &str) -> (r: Option<String>)
        ensures
            match first_value(self.entries_view(), name@) {
                Some(v) => r matches Some(s) && s@ == v,
                None => r is None,
            },
    ;
}

impl MapFirstStringMethod for MapFirstString {
    open spec fn entries_view(&self) -> Seq<(Seq<char>, Seq<Seq<char>>)> {
        mm_string_view(self.entries())
    }

    fn value(&self, name: &str) -> (r: Option<String>) {
        proof {
            crate::multimap::lemma_mm_find_string_view(self.entries(), name@);
            crate::multimap::lemma_mm_find(self.entries(), name@);
            match crate::multimap::mm_find(self.entries(), name@) {
                Some(i) => {
                    assert(mm_string_view(self.entries())[i] == (
                        self.entries()[i].0,
                        self.entries()[i].1.map(|j: int, s: String| s@),
                    ));
                },
                None => {},
            }
        }
        crate::multimap::map_first_vec_value(self, name)
    }
}

/// Decoded field values, keyed by the decoded field name.
pub type FormData = MultiMap<String>;

/// Uploaded files, keyed by the field name.
pub type FormFiles = MultiMap<FormFile>;

/// First-file lookup on the uploaded-files mapping.
pub trait FormFileMethods: Sized {
    spec fn files_entries(&self) -> Seq<(Seq<char>, Seq<FormFile>)>;

    fn value(&self, name: &str) -> (r: Option<&FormFile>)
        ensures
            match mm_get(self.files_entries(), name@) {
                Some(vs) => if vs.len() > 0 {
                    r matches Some(f) && *f == vs[0]
                } else {
                    r is None
                },
                None => r is None,
            },
    ;
}

impl FormFileMethods for FormFiles {
    open spec fn files_entries(&self) -> Seq<(Seq<char>, Seq<FormFile>)> {
        self.entries()
    }

    fn value(&self, name: &str) -> (r: Option<&FormFile>) {
        match self.get(name) {
            Some(values) => {
                if values.len() > 0 {
                    Some(&values[0])
                } else {
                    None
                }
            },
            None => None,
        }
    }
}

/// A named file attachment.
pub struct File {
    pub name: String,
    pub content_type: String,
}

} // verus!
