//! Searching for a byte pattern inside a byte sequence.
//!
//! The wire decoders all hinge on locating delimiter sequences such as
//! `\r\n\r\n` or `\r\n--boundary` inside a growing buffer.  `find_sub` is the
//! specification-level search (index of the first occurrence), and
//! `find_subslice` is the executable search proved against it.

use vstd::prelude::*;

verus! {

/// True when the needle `n` occurs in `h` starting at index `i`.
pub open spec fn is_match_at(h: Seq<u8>, n: Seq<u8>, i: int) -> bool {
    &&& 0 <= i
    &&& i + n.len() <= h.len()
    &&& h.subrange(i, i + n.len() as int) == n
}

/// Index of the first occurrence of `n` in `h`, if there is one.
pub open spec fn find_sub(h: Seq<u8>, n: Seq<u8>) -> Option<int>
    decreases h.len(),
{
    if n.len() > h.len() {
        None
    } else if h.take(n.len() as int) == n {
        Some(0)
    } else if h.len() == 0 {
        None
    } else {
        match find_sub(h.skip(1), n) {
            Some(i) => Some(i + 1),
            None => None,
        }
    }
}

/// `find_sub` returns exactly the first match: a `Some(i)` is a match with
/// none before it, and `None` means no match anywhere.
pub proof fn lemma_find_sub_characterization(h: Seq<u8>, n: Seq<u8>)
    ensures
        match find_sub(h, n) {
            Some(i) => is_match_at(h, n, i) && (forall|j: int|
                0 <= j < i ==> !is_match_at(h, n, j)),
            None => forall|j: int| !is_match_at(h, n, j),
        },
    decreases h.len(),
{
    if n.len() > h.len() {
        assert(forall|j: int| is_match_at(h, n, j) ==> j + n.len() <= h.len());
    } else if h.take(n.len() as int) == n {
        assert(h.subrange(0, n.len() as int) == h.take(n.len() as int));
    } else if h.len() == 0 {
        assert(h.take(n.len() as int) =~= n);
    } else {
        lemma_find_sub_characterization(h.skip(1), n);
        assert forall|j: int| 1 <= j && j + n.len() <= h.len() implies
            #[trigger] h.subrange(j, j + n.len() as int) == h.skip(1).subrange(
                j - 1,
                j - 1 + n.len() as int,
            ) by {
            assert(h.subrange(j, j + n.len() as int) =~= h.skip(1).subrange(
                j - 1,
                j - 1 + n.len() as int,
            ));
        }
        assert(!is_match_at(h, n, 0)) by {
            assert(h.subrange(0, n.len() as int) == h.take(n.len() as int));
        }
        match find_sub(h.skip(1), n) {
            Some(i) => {
                assert(is_match_at(h.skip(1), n, i));
                assert(h.subrange(i + 1, i + 1 + n.len() as int) =~= h.skip(1).subrange(
                    i,
                    i + n.len() as int,
                ));
                assert(is_match_at(h, n, i + 1));
                assert forall|j: int| 0 <= j < i + 1 implies !is_match_at(h, n, j) by {
                    if j >= 1 {
                        assert(!is_match_at(h.skip(1), n, j - 1));
                    }
                }
            },
            None => {
                assert forall|j: int| !is_match_at(h, n, j) by {
                    if j >= 1 && j + n.len() <= h.len() {
                        assert(!is_match_at(h.skip(1), n, j - 1));
                    }
                }
            },
        }
    }
}

/// The first match determines `find_sub`.
pub proof fn lemma_find_sub_from_first_match(h: Seq<u8>, n: Seq<u8>, i: int)
    requires
        is_match_at(h, n, i),
        forall|j: int| 0 <= j < i ==> !is_match_at(h, n, j),
    ensures
        find_sub(h, n) == Some(i),
{
    lemma_find_sub_characterization(h, n);
    match find_sub(h, n) {
        Some(k) => {
            if k < i {
                assert(!is_match_at(h, n, k));
            }
            if i < k {
                assert(!is_match_at(h, n, i));
            }
        },
        None => {
            assert(!is_match_at(h, n, i));
        },
    }
}

/// No match anywhere determines `find_sub`.
pub proof fn lemma_find_sub_from_no_match(h: Seq<u8>, n: Seq<u8>)
    requires
        forall|j: int| !is_match_at(h, n, j),
    ensures
        find_sub(h, n) is None,
{
    lemma_find_sub_characterization(h, n);
    match find_sub(h, n) {
        Some(k) => {
            assert(!is_match_at(h, n, k));
        },
        None => {},
    }
}

/// A match that lies wholly inside a window of `h` is a match on the window,
/// and the other way round.
pub proof fn lemma_match_in_window(h: Seq<u8>, n: Seq<u8>, lo: int, hi: int, j: int)
    requires
        0 <= lo <= hi <= h.len(),
        lo <= j,
        j + n.len() <= hi,
    ensures
        is_match_at(h, n, j) <==> is_match_at(h.subrange(lo, hi), n, j - lo),
{
    let w = h.subrange(lo, hi);
    assert(h.subrange(j, j + n.len() as int) =~= w.subrange(j - lo, j - lo + n.len() as int));
}

/// In `x + n + y` the first occurrence of `n` stands right after `x`,
/// provided no occurrence starts inside `x` (not even one formed against
/// the needle itself).
pub proof fn lemma_find_sub_after_prefix(x: Seq<u8>, n: Seq<u8>, y: Seq<u8>)
    requires
        forall|j: int| 0 <= j < x.len() ==> !is_match_at(x + n, n, j),
    ensures
        find_sub(x + n + y, n) == Some(x.len() as int),
{
    let h = x + n + y;
    assert(is_match_at(h, n, x.len() as int)) by {
        assert(h.subrange(x.len() as int, x.len() as int + n.len() as int) =~= n);
    }
    assert forall|j: int| 0 <= j < x.len() implies !is_match_at(h, n, j) by {
        if j + n.len() <= x.len() + n.len() {
            lemma_match_in_window(h, n, 0, x.len() as int + n.len() as int, j);
            assert(h.subrange(0, x.len() as int + n.len() as int) =~= x + n);
            assert(!is_match_at(x + n, n, j));
        }
    }
    lemma_find_sub_from_first_match(h, n, x.len() as int);
}

/// Compares the window of `h` starting at `i` with `n`.
fn match_at(h: &[u8], n: &[u8], i: usize) -> (r: bool)
    requires
        i + n@.len() <= h@.len(),
    ensures
        r == is_match_at(h@, n@, i as int),
{
    let h_len = h.len();
    let mut k: usize = 0;
    while k < n.len()
        invariant
            0 <= k <= n@.len(),
            i + n@.len() <= h@.len(),
            h@.len() == h_len,
            forall|t: int| 0 <= t < k ==> h@[i + t] == n@[t],
        decreases n@.len() - k,
    {
        if h[i + k] != n[k] {
            proof {
                assert(h@.subrange(i as int, i + n@.len() as int)[k as int] == h@[i + k]);
            }
            return false;
        }
        k = k + 1;
    }
    proof {
        assert(h@.subrange(i as int, i + n@.len() as int) =~= n@);
    }
    true
}

/// Returns the index of the first occurrence of `n` in `h`, searching only
/// positions at or after `from`.
pub fn find_subslice_from(h: &[u8], n: &[u8], from: usize) -> (r: Option<usize>)
    requires
        forall|j: int| 0 <= j < from ==> !is_match_at(h@, n@, j),
    ensures
        r matches Some(u) ==> find_sub(h@, n@) == Some(u as int),
        r is None ==> find_sub(h@, n@) is None,
{
    if n.len() > h.len() {
        proof {
            lemma_find_sub_from_no_match(h@, n@);
        }
        return None;
    }
    let last = h.len() - n.len();
    let mut i: usize = from;
    if i > last {
        proof {
            assert forall|j: int| !is_match_at(h@, n@, j) by {
                if 0 <= j < from {
                } else {
                    assert(j > last ==> j + n@.len() > h@.len());
                }
            }
            lemma_find_sub_from_no_match(h@, n@);
        }
        return None;
    }
    loop
        invariant
            n@.len() <= h@.len(),
            h@.len() <= usize::MAX,
            last == h@.len() - n@.len(),
            0 <= i <= last + 1,
            forall|j: int| 0 <= j < i ==> !is_match_at(h@, n@, j),
        decreases last + 1 - i,
    {
        if i > last {
            proof {
                assert forall|j: int| !is_match_at(h@, n@, j) by {
                    if j >= 0 && j + n@.len() <= h@.len() {
                        assert(j <= last);
                    }
                }
                lemma_find_sub_from_no_match(h@, n@);
            }
            return None;
        }
        if match_at(h, n, i) {
            proof {
                lemma_find_sub_from_first_match(h@, n@, i as int);
            }
            return Some(i);
        }
        proof {
            if n@.len() == 0 {
                assert(h@.subrange(i as int, i as int) =~= n@);
            }
        }
        i = i + 1;
    }
}

/// Returns the index of the first occurrence of `n` in `h`.
pub fn find_subslice(h: &[u8], n: &[u8]) -> (r: Option<usize>)
    ensures
        r matches Some(u) ==> find_sub(h@, n@) == Some(u as int),
        r is None ==> find_sub(h@, n@) is None,
{
    find_subslice_from(h, n, 0)
}

/// Returns the index of the first occurrence of the byte `b` in `h`.
pub fn find_byte(h: &[u8], b: u8) -> (r: Option<usize>)
    ensures
        r matches Some(u) ==> find_sub(h@, seq![b]) == Some(u as int),
        r is None ==> find_sub(h@, seq![b]) is None,
{
    let mut n: Vec<u8> = Vec::new();
    n.push(b);
    proof {
        assert(n@ =~= seq![b]);
    }
    find_subslice(h, n.as_slice())
}

/// True when `h` begins with `p`.
pub fn starts_with(h: &[u8], p: &[u8]) -> (r: bool)
    ensures
        r == (h@.len() >= p@.len() && h@.take(p@.len() as int) == p@),
{
    if p.len() > h.len() {
        proof {
            if h@.len() >= p@.len() {
            }
        }
        return false;
    }
    let r = match_at(h, p, 0);
    proof {
        assert(h@.subrange(0, p@.len() as int) == h@.take(p@.len() as int));
    }
    r
}

/// True when `h` ends with `p`.
pub fn ends_with(h: &[u8], p: &[u8]) -> (r: bool)
    ensures
        r == (h@.len() >= p@.len() && h@.skip(h@.len() - p@.len()) == p@),
{
    if p.len() > h.len() {
        return false;
    }
    let off = h.len() - p.len();
    let r = match_at(h, p, off);
    proof {
        assert(h@.subrange(off as int, off + p@.len() as int) == h@.skip(h@.len() - p@.len()));
    }
    r
}

/// Byte-sequence equality.
pub fn bytes_eq(a: &[u8], b: &[u8]) -> (r: bool)
    ensures
        r == (a@ == b@),
{
    if a.len() != b.len() {
        return false;
    }
    let r = starts_with(a, b);
    proof {
        if a@ == b@ {
            assert(a@.take(b@.len() as int) =~= b@);
        }
        if r {
            assert(a@ =~= a@.take(b@.len() as int));
        }
    }
    r
}

/// Copy of the byte range `[a, b)` of `h`.
pub fn bytes_range(h: &[u8], a: usize, b: usize) -> (r: Vec<u8>)
    requires
        a <= b <= h@.len(),
    ensures
        r@ == h@.subrange(a as int, b as int),
{
    let mut r: Vec<u8> = Vec::new();
    let mut i: usize = a;
    while i < b
        invariant
            a <= i <= b <= h@.len(),
            r@ == h@.subrange(a as int, i as int),
        decreases b - i,
    {
        r.push(h[i]);
        proof {
            assert(h@.subrange(a as int, i + 1) =~= h@.subrange(a as int, i as int).push(
                h@[i as int],
            ));
        }
        i = i + 1;
    }
    r
}

} // verus!
