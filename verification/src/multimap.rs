//! Ordered multi-valued map keyed by strings.
//!
//! Request headers, query parameters and form data are all mappings from a
//! name to an ordered list of values, where inserting under an existing name
//! appends and iteration preserves the order of first appearance.  The map
//! is kept as a vector of pairs with lookup by first match.

use vstd::prelude::*;
use crate::text::str_eq;

verus! {

/// A mapping from string keys to ordered lists of values.  Keys are unique
/// by construction (appending reuses the first entry with the same key) and
/// iteration order is the order of first insertion.
pub struct MultiMap<V> {
    pub pairs: Vec<(String, Vec<V>)>,
}

/// Index of the first entry with key `k`.
pub open spec fn mm_find<V>(m: Seq<(Seq<char>, Seq<V>)>, k: Seq<char>) -> Option<int>
    decreases m.len(),
{
    if m.len() == 0 {
        None
    } else if m[0].0 == k {
        Some(0)
    } else {
        match mm_find(m.skip(1), k) {
            Some(i) => Some(i + 1),
            None => None,
        }
    }
}

/// The values under key `k`, if the key is present.
pub open spec fn mm_get<V>(m: Seq<(Seq<char>, Seq<V>)>, k: Seq<char>) -> Option<Seq<V>> {
    match mm_find(m, k) {
        Some(i) => Some(m[i].1),
        None => None,
    }
}

/// The map after appending `v` under key `k`.
pub open spec fn mm_append<V>(
    m: Seq<(Seq<char>, Seq<V>)>,
    k: Seq<char>,
    v: V,
) -> Seq<(Seq<char>, Seq<V>)> {
    match mm_find(m, k) {
        Some(i) => m.update(i, (k, m[i].1.push(v))),
        None => m.push((k, seq![v])),
    }
}

/// The map after replacing the first value under `k` (inserting the key if
/// it is absent).
pub open spec fn mm_set_first<V>(
    m: Seq<(Seq<char>, Seq<V>)>,
    k: Seq<char>,
    v: V,
) -> Seq<(Seq<char>, Seq<V>)> {
    match mm_find(m, k) {
        Some(i) => if m[i].1.len() == 0 {
            m.update(i, (k, seq![v]))
        } else {
            m.update(i, (k, m[i].1.update(0, v)))
        },
        None => m.push((k, seq![v])),
    }
}

/// `mm_find` returns the first entry whose key is `k`, if there is one.
pub proof fn lemma_mm_find<V>(m: Seq<(Seq<char>, Seq<V>)>, k: Seq<char>)
    ensures
        match mm_find(m, k) {
            Some(i) => 0 <= i < m.len() && m[i].0 == k && (forall|j: int|
                0 <= j < i ==> m[j].0 != k),
            None => forall|j: int| 0 <= j < m.len() ==> m[j].0 != k,
        },
    decreases m.len(),
{
    if m.len() > 0 && m[0].0 != k {
        lemma_mm_find(m.skip(1), k);
        assert(forall|j: int| 0 <= j < m.skip(1).len() ==> #[trigger] m.skip(1)[j] == m[j + 1]);
        match mm_find(m.skip(1), k) {
            Some(i) => {
                assert forall|j: int| 0 <= j < i + 1 implies m[j].0 != k by {
                    if j >= 1 {
                        assert(m.skip(1)[j - 1].0 != k);
                    }
                }
            },
            None => {
                assert forall|j: int| 0 <= j < m.len() implies m[j].0 != k by {
                    if j >= 1 {
                        assert(m.skip(1)[j - 1].0 != k);
                    }
                }
            },
        }
    }
}

impl<V> MultiMap<V> {
    /// The sequence of entries, with string keys taken to character
    /// sequences and value vectors to sequences.
    pub open spec fn entries(&self) -> Seq<(Seq<char>, Seq<V>)> {
        self.pairs@.map(|i: int, p: (String, Vec<V>)| (p.0@, p.1@))
    }

    /// An empty map.
    pub fn new() -> (r: MultiMap<V>)
        ensures
            r.entries() == Seq::<(Seq<char>, Seq<V>)>::empty(),
    {
        let r = MultiMap { pairs: Vec::new() };
        proof {
            assert(r.entries() =~= Seq::<(Seq<char>, Seq<V>)>::empty());
        }
        r
    }

    /// Number of distinct keys.
    pub fn len(&self) -> (r: usize)
        ensures
            r == self.entries().len(),
    {
        self.pairs.len()
    }

    /// Index of the first entry with key `name`.
    fn find(&self, name: &str) -> (r: Option<usize>)
        ensures
            r matches Some(u) ==> mm_find(self.entries(), name@) == Some(u as int),
            r is None ==> mm_find(self.entries(), name@) is None,
    {
        let mut i: usize = 0;
        while i < self.pairs.len()
            invariant
                0 <= i <= self.entries().len(),
                self.entries().len() == self.pairs@.len(),
                forall|j: int| 0 <= j < i ==> #[trigger] self.entries()[j].0 != name@,
            decreases self.pairs@.len() - i,
        {
            if str_eq(self.pairs[i].0.as_str(), name) {
                proof {
                    assert(self.entries()[i as int] == (
                        self.pairs@[i as int].0@,
                        self.pairs@[i as int].1@,
                    ));
                    lemma_mm_find(self.entries(), name@);
                    match mm_find(self.entries(), name@) {
                        Some(f) => {
                            if f < i {
                                assert(self.entries()[f].0 != name@);
                            }
                            if f > i {
                                assert(self.entries()[i as int].0 != name@);
                            }
                        },
                        None => {
                            assert(self.entries()[i as int].0 != name@);
                        },
                    }
                }
                return Some(i);
            }
            i = i + 1;
        }
        proof {
            lemma_mm_find(self.entries(), name@);
            match mm_find(self.entries(), name@) {
                Some(f) => {
                    assert(self.entries()[f].0 != name@);
                },
                None => {},
            }
        }
        None
    }

    /// The values stored under `name`, if any.
    pub fn get(&self, name: &str) -> (r: Option<&Vec<V>>)
        ensures
            r matches Some(vs) ==> mm_get(self.entries(), name@) == Some(vs@),
            r is None ==> mm_get(self.entries(), name@) is None,
    {
        match self.find(name) {
            Some(i) => {
                proof {
                    lemma_mm_find(self.entries(), name@);
                    assert(self.entries()[i as int] == (
                        self.pairs@[i as int].0@,
                        self.pairs@[i as int].1@,
                    ));
                }
                Some(&self.pairs[i].1)
            },
            None => None,
        }
    }

    /// True when `name` has an entry.
    pub fn contains_key(&self, name: &str) -> (r: bool)
        ensures
            r == (mm_get(self.entries(), name@) is Some),
    {
        match self.find(name) {
            Some(_) => true,
            None => false,
        }
    }

    /// Appends `v` to the values under `name`, creating the entry if it is
    /// absent.
    pub fn append(&mut self, name: String, v: V)
        ensures
            final(self).entries() == mm_append(old(self).entries(), name@, v),
    {
        let ghost m0 = self.entries();
        match self.find(name.as_str()) {
            Some(i) => {
                proof {
                    lemma_mm_find(m0, name@);
                }
                let mut pair = self.pairs.remove(i);
                pair.1.push(v);
                self.pairs.insert(i, pair);
                proof {
                    assert(self.entries() =~= mm_append(m0, name@, v));
                }
            },
            None => {
                let mut vs: Vec<V> = Vec::new();
                vs.push(v);
                self.pairs.push((name, vs));
                proof {
                    assert(self.entries() =~= mm_append(m0, name@, v));
                }
            },
        }
    }

    /// Replaces the first value under `name`, creating the entry if it is
    /// absent.
    pub fn set_first(&mut self, name: String, v: V)
        ensures
            final(self).entries() == mm_set_first(old(self).entries(), name@, v),
    {
        let ghost m0 = self.entries();
        match self.find(name.as_str()) {
            Some(i) => {
                proof {
                    lemma_mm_find(m0, name@);
                    assert(m0[i as int] == (
                        self.pairs@[i as int].0@,
                        self.pairs@[i as int].1@,
                    ));
                }
                let mut pair = self.pairs.remove(i);
                if pair.1.len() == 0 {
                    pair.1.push(v);
                } else {
                    pair.1.set(0, v);
                }
                self.pairs.insert(i, pair);
                proof {
                    assert(self.entries() =~~= mm_set_first(m0, name@, v));
                }
            },
            None => {
                let mut vs: Vec<V> = Vec::new();
                vs.push(v);
                self.pairs.push((name, vs));
                proof {
                    assert(self.entries() =~= mm_set_first(m0, name@, v));
                }
            },
        }
    }
}

/// The entries of a string-valued map with the values themselves taken to
/// character sequences.
pub open spec fn mm_string_view(m: Seq<(Seq<char>, Seq<String>)>) -> Seq<(Seq<char>, Seq<Seq<char>>)> {
    m.map(|i: int, p: (Seq<char>, Seq<String>)| (p.0, p.1.map(|j: int, s: String| s@)))
}

/// Lookup is the same before and after taking values to their views.
pub proof fn lemma_mm_find_string_view(m: Seq<(Seq<char>, Seq<String>)>, k: Seq<char>)
    ensures
        mm_find(mm_string_view(m), k) == mm_find(m, k),
    decreases m.len(),
{
    if m.len() > 0 {
        assert(mm_string_view(m)[0].0 == m[0].0);
        if m[0].0 != k {
            lemma_mm_find_string_view(m.skip(1), k);
            assert(mm_string_view(m.skip(1)) =~~= mm_string_view(m).skip(1));
        }
    }
}

/// Appending commutes with taking values to their views.
pub proof fn lemma_mm_append_string_view(m: Seq<(Seq<char>, Seq<String>)>, k: Seq<char>, v: String)
    ensures
        mm_string_view(mm_append(m, k, v)) == mm_append(mm_string_view(m), k, v@),
{
    lemma_mm_find_string_view(m, k);
    lemma_mm_find(m, k);
    match mm_find(m, k) {
        Some(i) => {
            assert(mm_string_view(mm_append(m, k, v)) =~~= mm_append(mm_string_view(m), k, v@));
        },
        None => {
            assert(mm_string_view(mm_append(m, k, v)) =~~= mm_append(mm_string_view(m), k, v@));
        },
    }
}

/// Replacing the first value commutes with taking values to their views.
pub proof fn lemma_mm_set_first_string_view(
    m: Seq<(Seq<char>, Seq<String>)>,
    k: Seq<char>,
    v: String,
)
    ensures
        mm_string_view(mm_set_first(m, k, v)) == mm_set_first(mm_string_view(m), k, v@),
{
    lemma_mm_find_string_view(m, k);
    lemma_mm_find(m, k);
    match mm_find(m, k) {
        Some(i) => {
            assert(mm_string_view(mm_set_first(m, k, v)) =~~= mm_set_first(
                mm_string_view(m),
                k,
                v@,
            ));
        },
        None => {
            assert(mm_string_view(mm_set_first(m, k, v)) =~~= mm_set_first(
                mm_string_view(m),
                k,
                v@,
            ));
        },
    }
}

/// First value under key `k`, when the key is present with at least one
/// value.
pub open spec fn first_value(m: Seq<(Seq<char>, Seq<Seq<char>>)>, k: Seq<char>) -> Option<
    Seq<char>,
> {
    match mm_get(m, k) {
        Some(vs) => if vs.len() > 0 {
            Some(vs[0])
        } else {
            None
        },
        None => None,
    }
}

impl MultiMap<String> {
    /// An independent copy with the same entries.
    pub fn duplicate(&self) -> (r: MultiMap<String>)
        ensures
            r.entries() == self.entries(),
    {
        let mut pairs: Vec<(String, Vec<String>)> = Vec::new();
        let n = self.pairs.len();
        let mut i: usize = 0;
        while i < n
            invariant
                0 <= i <= n,
                n == self.pairs@.len(),
                pairs@.len() == i,
                forall|k: int|
                    0 <= k < i ==> #[trigger] pairs@[k].0@ == self.pairs@[k].0@ && pairs@[k].1@
                        =~= self.pairs@[k].1@,
            decreases n - i,
        {
            let pair = &self.pairs[i];
            let key = pair.0.clone();
            let mut values: Vec<String> = Vec::new();
            let vn = pair.1.len();
            let mut j: usize = 0;
            while j < vn
                invariant
                    0 <= j <= vn,
                    vn == pair.1@.len(),
                    values@ =~= pair.1@.take(j as int),
                decreases vn - j,
            {
                values.push(pair.1[j].clone());
                proof {
                    assert(values@ =~= pair.1@.take(j + 1));
                }
                j = j + 1;
            }
            proof {
                assert(values@ =~= pair.1@);
            }
            pairs.push((key, values));
            i = i + 1;
        }
        let r = MultiMap { pairs };
        proof {
            assert(r.entries() =~~= self.entries());
        }
        r
    }

    /// The first value stored under `name`, if any.
    pub fn first(&self, name: &str) -> (r: Option<&String>)
        ensures
            match first_value(mm_string_view(self.entries()), name@) {
                Some(v) => r matches Some(s) && s@ == v,
                None => r is None,
            },
    {
        proof {
            lemma_mm_find_string_view(self.entries(), name@);
            lemma_mm_find(self.entries(), name@);
        }
        match self.get(name) {
            Some(values) => {
                proof {
                    match mm_find(self.entries(), name@) {
                        Some(i) => {
                            assert(mm_string_view(self.entries())[i] == (
                                self.entries()[i].0,
                                self.entries()[i].1.map(|j: int, s: String| s@),
                            ));
                        },
                        None => {},
                    }
                }
                if values.len() > 0 {
                    Some(&values[0])
                } else {
                    None
                }
            },
            None => None,
        }
    }
}

/// First value under `name`, cloned, as the request accessors hand it out.
pub fn map_first_vec_value(map: &MultiMap<String>, key: &str) -> (r: Option<String>)
    ensures
        match mm_get(map.entries(), key@) {
            Some(vs) => if vs.len() > 0 {
                r matches Some(s) && s@ == vs[0]@
            } else {
                r is None
            },
            None => r is None,
        },
{
    match map.get(key) {
        Some(values) => {
            if values.len() > 0 {
                Some(values[0].clone())
            } else {
                None
            }
        },
        None => None,
    }
}

} // verus!
