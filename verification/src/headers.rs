//! The header mapping of a request or a response: opaque name/value pairs
//! with last-write-wins semantics on duplicate names.

use vstd::prelude::*;

use crate::text::str_eq;

verus! {

/// The spec-level content of a header mapping: name/value character
/// sequences in insertion order.
pub type HeaderPairs = Seq<(Seq<char>, Seq<char>)>;

/// No two pairs carry the same name.
pub open spec fn keys_distinct(hs: HeaderPairs) -> bool {
    forall|i: int, j: int| 0 <= i < j < hs.len() ==> hs[i].0 != hs[j].0
}

/// The value stored under `k`: the first pair whose name is `k`, if any.
/// Under [`keys_distinct`] it is the only such pair.
pub open spec fn hlookup(hs: HeaderPairs, k: Seq<char>) -> Option<Seq<char>>
    decreases hs.len(),
{
    if hs.len() == 0 {
        None
    } else if hs[0].0 == k {
        Some(hs[0].1)
    } else {
        hlookup(hs.drop_first(), k)
    }
}

/// Last-write-wins insertion: the first pair named `k` is replaced in
/// place, or a fresh pair is appended when none exists.
pub open spec fn hinsert(hs: HeaderPairs, k: Seq<char>, v: Seq<char>) -> HeaderPairs
    decreases hs.len(),
{
    if hs.len() == 0 {
        seq![(k, v)]
    } else if hs[0].0 == k {
        seq![(k, v)] + hs.drop_first()
    } else {
        seq![hs[0]] + hinsert(hs.drop_first(), k, v)
    }
}

/// After an insertion, `k` maps to the new value and every other name maps
/// to what it mapped to before.
pub proof fn lemma_hinsert_lookup(hs: HeaderPairs, k: Seq<char>, v: Seq<char>, q: Seq<char>)
    ensures
        hlookup(hinsert(hs, k, v), q) == if q == k {
            Some(v)
        } else {
            hlookup(hs, q)
        },
    decreases hs.len(),
{
    if hs.len() == 0 {
        let r = seq![(k, v)];
        assert(hinsert(hs, k, v) == r);
        assert(r[0] == (k, v));
        assert(r.drop_first() =~= Seq::<(Seq<char>, Seq<char>)>::empty());
        if q != k {
            assert(hlookup(r, q) == hlookup(r.drop_first(), q));
        }
    } else if hs[0].0 == k {
        let r = seq![(k, v)] + hs.drop_first();
        assert(hinsert(hs, k, v) == r);
        assert(r[0] == (k, v));
        assert(r.drop_first() =~= hs.drop_first());
        if q == k {
            assert(hlookup(r, q) == Some(v));
        } else {
            assert(hlookup(r, q) == hlookup(hs.drop_first(), q));
            assert(hlookup(hs, q) == hlookup(hs.drop_first(), q));
        }
    } else {
        lemma_hinsert_lookup(hs.drop_first(), k, v, q);
        let t = hinsert(hs.drop_first(), k, v);
        let r = seq![hs[0]] + t;
        assert(hinsert(hs, k, v) == r);
        assert(r[0] == hs[0]);
        assert(r.drop_first() =~= t);
        if q == hs[0].0 {
            assert(hlookup(r, q) == Some(hs[0].1));
            assert(hlookup(hs, q) == Some(hs[0].1));
        } else {
            assert(hlookup(r, q) == hlookup(t, q));
            assert(hlookup(hs, q) == hlookup(hs.drop_first(), q));
        }
    }
}

/// Insertion keeps the names pairwise distinct.
pub proof fn lemma_hinsert_distinct(hs: HeaderPairs, k: Seq<char>, v: Seq<char>)
    requires
        keys_distinct(hs),
    ensures
        keys_distinct(hinsert(hs, k, v)),
    decreases hs.len(),
{
    if hs.len() == 0 {
    } else if hs[0].0 == k {
        let r = seq![(k, v)] + hs.drop_first();
        assert forall|i: int, j: int| 0 <= i < j < r.len() implies r[i].0 != r[j].0 by {
            if i == 0 {
                assert(r[j] == hs[j]);
                assert(hs[0].0 != hs[j].0);
            } else {
                assert(r[i] == hs[i] && r[j] == hs[j]);
            }
        }
    } else {
        lemma_hinsert_distinct(hs.drop_first(), k, v);
        lemma_hinsert_keys(hs.drop_first(), k, v);
        let t = hinsert(hs.drop_first(), k, v);
        let r = seq![hs[0]] + t;
        assert forall|i: int, j: int| 0 <= i < j < r.len() implies r[i].0 != r[j].0 by {
            if i == 0 {
                assert(r[j] == t[j - 1]);
            } else {
                assert(r[i] == t[i - 1] && r[j] == t[j - 1]);
            }
        }
    }
}

/// Every name present after an insertion was present before or is the
/// inserted name.
pub proof fn lemma_hinsert_keys(hs: HeaderPairs, k: Seq<char>, v: Seq<char>)
    ensures
        forall|i: int|
            0 <= i < hinsert(hs, k, v).len() ==> hinsert(hs, k, v)[i].0 == k || exists|j: int|
                0 <= j < hs.len() && hs[j].0 == #[trigger] hinsert(hs, k, v)[i].0,
    decreases hs.len(),
{
    if hs.len() == 0 {
    } else if hs[0].0 == k {
        let r = seq![(k, v)] + hs.drop_first();
        assert forall|i: int| 0 <= i < r.len() && r[i].0 != k implies exists|j: int|
            0 <= j < hs.len() && hs[j].0 == r[i].0 by {
            assert(r[i] == hs[i]);
        }
    } else {
        lemma_hinsert_keys(hs.drop_first(), k, v);
        let t = hinsert(hs.drop_first(), k, v);
        let r = seq![hs[0]] + t;
        assert forall|i: int| 0 <= i < r.len() && r[i].0 != k implies exists|j: int|
            0 <= j < hs.len() && hs[j].0 == r[i].0 by {
            if i == 0 {
                assert(hs[0].0 == r[0].0);
            } else {
                assert(r[i] == t[i - 1]);
                let j = choose|j: int| 0 <= j < hs.drop_first().len() && hs.drop_first()[j].0
                    == t[i - 1].0;
                assert(hs[j + 1].0 == r[i].0);
            }
        }
    }
}

/// Inserting a name that is not yet present appends the pair.
pub proof fn lemma_hinsert_absent(hs: HeaderPairs, k: Seq<char>, v: Seq<char>)
    requires
        forall|j: int| 0 <= j < hs.len() ==> hs[j].0 != k,
    ensures
        hinsert(hs, k, v) == hs.push((k, v)),
    decreases hs.len(),
{
    if hs.len() == 0 {
        assert(hinsert(hs, k, v) =~= hs.push((k, v)));
    } else {
        lemma_hinsert_absent(hs.drop_first(), k, v);
        assert(seq![hs[0]] + hs.drop_first().push((k, v)) =~= hs.push((k, v)));
    }
}

/// Inserting under a name whose first occurrence is at `i` replaces that
/// pair in place.
pub proof fn lemma_hinsert_at(hs: HeaderPairs, k: Seq<char>, v: Seq<char>, i: int)
    requires
        0 <= i < hs.len(),
        hs[i].0 == k,
        forall|j: int| 0 <= j < i ==> hs[j].0 != k,
    ensures
        hinsert(hs, k, v) == hs.update(i, (k, v)),
    decreases i,
{
    if i == 0 {
        assert(seq![(k, v)] + hs.drop_first() =~= hs.update(0, (k, v)));
    } else {
        lemma_hinsert_at(hs.drop_first(), k, v, i - 1);
        assert(seq![hs[0]] + hs.drop_first().update(i - 1, (k, v)) =~= hs.update(i, (k, v)));
    }
}

/// The first pair named `k` stands at `i`, so lookup yields its value.
pub proof fn lemma_hlookup_at(hs: HeaderPairs, k: Seq<char>, i: int)
    requires
        0 <= i < hs.len(),
        hs[i].0 == k,
        forall|j: int| 0 <= j < i ==> hs[j].0 != k,
    ensures
        hlookup(hs, k) == Some(hs[i].1),
    decreases i,
{
    if i > 0 {
        lemma_hlookup_at(hs.drop_first(), k, i - 1);
    }
}

/// No pair is named `k`, so lookup yields nothing.
pub proof fn lemma_hlookup_none(hs: HeaderPairs, k: Seq<char>)
    requires
        forall|j: int| 0 <= j < hs.len() ==> hs[j].0 != k,
    ensures
        hlookup(hs, k) == None::<Seq<char>>,
    decreases hs.len(),
{
    if hs.len() > 0 {
        lemma_hlookup_none(hs.drop_first(), k);
    }
}

/// Writing a name twice keeps the later value: the duplicate-header rule.
pub proof fn lemma_duplicate_header_last_wins(
    hs: HeaderPairs,
    k: Seq<char>,
    v1: Seq<char>,
    v2: Seq<char>,
)
    ensures
        hlookup(hinsert(hinsert(hs, k, v1), k, v2), k) == Some(v2),
{
    lemma_hinsert_lookup(hinsert(hs, k, v1), k, v2, k);
}

/// A mapping of header names to header values. Names and values are opaque
/// strings; insertion order is kept, and a later write under an existing
/// name replaces the earlier value in place.
#[derive(Debug, Clone, PartialEq)]
pub struct Headers {
    entries: Vec<(String, String)>,
}

impl View for Headers {
    type V = HeaderPairs;

    closed spec fn view(&self) -> HeaderPairs {
        Seq::new(self.entries@.len(), |i: int| (self.entries@[i].0@, self.entries@[i].1@))
    }
}

impl Headers {
    /// The mapping is well formed: no name occurs twice. Every mapping
    /// built by [`Headers::new`] and [`Headers::insert`] is well formed.
    pub open spec fn wf(&self) -> bool {
        keys_distinct(self@)
    }

    /// An empty mapping.
    pub fn new() -> (h: Headers)
        ensures
            h@ == Seq::<(Seq<char>, Seq<char>)>::empty(),
            h.wf(),
    {
        let h = Headers { entries: Vec::new() };
        proof {
            assert(h@ =~= Seq::<(Seq<char>, Seq<char>)>::empty());
        }
        h
    }

    /// How many names are mapped.
    pub fn len(&self) -> (n: usize)
        ensures
            n == self@.len(),
    {
        self.entries.len()
    }

    /// The pair at position `i`, in insertion order.
    pub fn entry_at(&self, i: usize) -> (r: &(String, String))
        requires
            i < self@.len(),
        ensures
            r.0@ == self@[i as int].0,
            r.1@ == self@[i as int].1,
    {
        &self.entries[i]
    }

    /// Stores `value` under `name`. A later write under an existing name
    /// wins; the pair keeps its original position.
    pub fn insert(&mut self, name: String, value: String)
        ensures
            final(self)@ == hinsert(old(self)@, name@, value@),
            hlookup(final(self)@, name@) == Some(value@),
            forall|q: Seq<char>|
                q != name@ ==> hlookup(final(self)@, q) == hlookup(old(self)@, q),
            old(self).wf() ==> final(self).wf(),
    {
        let n = self.entries.len();
        let mut i: usize = 0;
        while i < n
            invariant
                self == old(self),
                n == self@.len(),
                i <= n,
                forall|j: int| 0 <= j < i ==> self@[j].0 != name@,
            decreases n - i,
        {
            if str_eq(self.entries[i].0.as_str(), name.as_str()) {
                proof {
                    lemma_hinsert_at(self@, name@, value@, i as int);
                    if old(self).wf() {
                        lemma_hinsert_distinct(self@, name@, value@);
                    }
                }
                let ghost before = self@;
                self.entries.remove(i);
                self.entries.insert(i, (name, value));
                proof {
                    assert(self@ =~= before.update(i as int, (name@, value@)));
                    lemma_hinsert_lookup(old(self)@, name@, value@, name@);
                    assert forall|q: Seq<char>| q != name@ implies hlookup(self@, q) == hlookup(
                        old(self)@,
                        q,
                    ) by {
                        lemma_hinsert_lookup(old(self)@, name@, value@, q);
                    }
                }
                return ;
            }
            i = i + 1;
        }
        proof {
            lemma_hinsert_absent(self@, name@, value@);
            if old(self).wf() {
                lemma_hinsert_distinct(self@, name@, value@);
            }
        }
        let ghost before = self@;
        self.entries.push((name, value));
        proof {
            assert(self@ =~= before.push((name@, value@)));
            lemma_hinsert_lookup(old(self)@, name@, value@, name@);
            assert forall|q: Seq<char>| q != name@ implies hlookup(self@, q) == hlookup(
                old(self)@,
                q,
            ) by {
                lemma_hinsert_lookup(old(self)@, name@, value@, q);
            }
        }
    }

    /// The value stored under `name`, if any.
    pub fn get(&self, name: &str) -> (r: Option<&String>)
        ensures
            match r {
                Some(v) => hlookup(self@, name@) == Some(v@),
                None => hlookup(self@, name@) == None::<Seq<char>>,
            },
    {
        let n = self.entries.len();
        let mut i: usize = 0;
        while i < n
            invariant
                n == self@.len(),
                i <= n,
                forall|j: int| 0 <= j < i ==> self@[j].0 != name@,
            decreases n - i,
        {
            if str_eq(self.entries[i].0.as_str(), name) {
                proof {
                    lemma_hlookup_at(self@, name@, i as int);
                }
                return Some(&self.entries[i].1);
            }
            i = i + 1;
        }
        proof {
            lemma_hlookup_none(self@, name@);
        }
        None
    }
}

} // verus!
