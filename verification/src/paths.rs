//! The dispatch table entry: a registered pathname and the handler kept
//! with it.  Matching is by exact string equality on the pathname, with
//! the last registration winning.

use vstd::prelude::*;
use crate::text::str_eq;

verus! {

/// One registered path: its exact pathname and the value (usually a
/// handler) served under it.
pub struct Path<T> {
    pub name: String,
    pub view: T,
}

impl<T> Path<T> {
    /// A path entry for the given pathname.
    pub fn new(name: &str, view: T) -> (r: Path<T>)
        ensures
            r.name@ == name@,
            r.view == view,
    {
        let name = name.to_owned();
        Path { name, view }
    }
}

/// The index of the last registered path whose name equals `pathname`,
/// if any.
pub fn match_path<T>(paths: &Vec<Path<T>>, pathname: &str) -> (r: Option<usize>)
    ensures
        r matches Some(i) ==> i < paths@.len() && paths@[i as int].name@ == pathname@ && (forall|
            j: int,
        | i < j < paths@.len() ==> paths@[j].name@ != pathname@),
        r is None ==> forall|j: int| 0 <= j < paths@.len() ==> paths@[j].name@ != pathname@,
{
    let n = paths.len();
    let mut i: usize = n;
    while i > 0
        invariant
            0 <= i <= n,
            n == paths@.len(),
            forall|j: int| i <= j < paths@.len() ==> paths@[j].name@ != pathname@,
        decreases i,
    {
        if str_eq(paths[i - 1].name.as_str(), pathname) {
            return Some(i - 1);
        }
        i = i - 1;
    }
    None
}

} // verus!