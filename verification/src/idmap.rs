//! A small association container keyed by `u64` identifiers.
//!
//! Entries are kept in insertion order in a vector with unique keys; the
//! pipeline's containers (devices, strips, sessions, programs) all use it.
//! Insertion order is part of the container's specification, so operations
//! that walk all entries (such as the connector's write phase) have a
//! deterministic, fully specified result.

use vstd::prelude::*;

verus! {

/// An insert-or-replace map from `u64` identifiers to values, preserving
/// insertion order.
pub struct IdMap<T> {
    entries: Vec<(u64, T)>,
}

/// Position of the first entry with key `k`, if any.
pub open spec fn spec_find<T>(s: Seq<(u64, T)>, k: u64) -> Option<int>
    decreases s.len(),
{
    if s.len() == 0 {
        None
    } else if s[0].0 == k {
        Some(0)
    } else {
        match spec_find(s.drop_first(), k) {
            None => None,
            Some(i) => Some(i + 1),
        }
    }
}

/// Keys are pairwise distinct.
pub open spec fn unique_keys<T>(s: Seq<(u64, T)>) -> bool {
    forall|i: int, j: int|
        0 <= i < s.len() && 0 <= j < s.len() && i != j ==> s[i].0 != s[j].0
}

/// What `spec_find` returns is a position of `k`, and `None` means absence.
pub proof fn lemma_spec_find<T>(s: Seq<(u64, T)>, k: u64)
    ensures
        match spec_find(s, k) {
            Some(i) => 0 <= i < s.len() && s[i].0 == k,
            None => forall|i: int| 0 <= i < s.len() ==> s[i].0 != k,
        },
    decreases s.len(),
{
    if s.len() > 0 && s[0].0 != k {
        lemma_spec_find(s.drop_first(), k);
        if spec_find(s, k) is None {
            assert forall|i: int| 0 <= i < s.len() implies s[i].0 != k by {
                if i > 0 {
                    assert(s.drop_first()[i - 1] == s[i]);
                }
            }
        }
    }
}

/// `spec_find` returns the position of `k` whenever one exists.
pub proof fn lemma_spec_find_present<T>(s: Seq<(u64, T)>, k: u64, i: int)
    requires
        0 <= i < s.len(),
        s[i].0 == k,
    ensures
        spec_find(s, k) is Some,
    decreases s.len(),
{
    if s[0].0 != k {
        assert(s.drop_first()[i - 1] == s[i]);
        lemma_spec_find_present(s.drop_first(), k, i - 1);
    }
}

impl<T> IdMap<T> {
    /// The entries, in insertion order.
    pub closed spec fn view(&self) -> Seq<(u64, T)> {
        self.entries@
    }

    /// Well-formed: no key occurs twice.
    pub open spec fn wf(&self) -> bool {
        unique_keys(self@)
    }

    /// Whether some entry has key `k`.
    pub open spec fn spec_contains(&self, k: u64) -> bool {
        spec_find(self@, k) is Some
    }

    /// An empty container.
    pub fn new() -> (r: IdMap<T>)
        ensures
            r@ == Seq::<(u64, T)>::empty(),
            r.wf(),
    {
        IdMap { entries: Vec::new() }
    }

    /// Number of entries.
    pub fn len(&self) -> (r: usize)
        ensures
            r == self@.len(),
    {
        self.entries.len()
    }

    /// Position of the entry with key `k`, if present.
    pub fn index_of(&self, k: u64) -> (r: Option<usize>)
        ensures
            match r {
                Some(i) => spec_find(self@, k) == Some(i as int),
                None => spec_find(self@, k) is None,
            },
    {
        let mut i: usize = 0;
        while i < self.entries.len()
            invariant
                i <= self@.len(),
                forall|j: int| 0 <= j < i ==> self@[j].0 != k,
            decreases self@.len() - i,
        {
            if self.entries[i].0 == k {
                proof {
                    lemma_spec_find_first_hit(self@, k, i as int);
                }
                return Some(i);
            }
            i = i + 1;
        }
        proof {
            lemma_spec_find(self@, k);
            if spec_find(self@, k) is Some {
                let j = spec_find(self@, k)->Some_0;
                assert(self@[j].0 == k);
            }
        }
        None
    }

    /// Key of the entry at position `i`.
    pub fn key_at(&self, i: usize) -> (r: u64)
        requires
            i < self@.len(),
        ensures
            r == self@[i as int].0,
    {
        self.entries[i].0
    }

    /// Borrows the value at position `i`.
    pub fn val_at(&self, i: usize) -> (r: &T)
        requires
            i < self@.len(),
        ensures
            *r == self@[i as int].1,
    {
        &self.entries[i].1
    }

    /// Mutably borrows the value at position `i`; the key stays.
    pub fn val_at_mut(&mut self, i: usize) -> (r: &mut T)
        requires
            i < old(self)@.len(),
        ensures
            *r == old(self)@[i as int].1,
            final(self)@ == old(self)@.update(i as int, (old(self)@[i as int].0, *final(r))),
            old(self).wf() ==> final(self).wf(),
    {
        &mut self.entries[i].1
    }

    /// Inserts `v` under `k`, replacing any entry that already has key `k`
    /// (in place, keeping its position); otherwise appends a new entry.
    pub fn insert(&mut self, k: u64, v: T)
        requires
            old(self).wf(),
        ensures
            final(self).wf(),
            final(self)@ == match spec_find(old(self)@, k) {
                Some(i) => old(self)@.update(i, (k, v)),
                None => old(self)@.push((k, v)),
            },
    {
        let found = self.index_of(k);
        match found {
            Some(i) => {
                proof {
                    lemma_spec_find(self@, k);
                }
                self.entries[i] = (k, v);
                proof {
                    assert(final(self).wf());
                }
            },
            None => {
                proof {
                    lemma_spec_find(self@, k);
                }
                self.entries.push((k, v));
            },
        }
    }

    /// Removes every entry.
    pub fn clear(&mut self)
        ensures
            final(self)@ == Seq::<(u64, T)>::empty(),
            final(self).wf(),
    {
        self.entries.clear();
    }
}

/// `spec_find` reads only the keys: sequences with equal keys agree on it.
pub proof fn lemma_spec_find_same_keys<A, B>(s: Seq<(u64, A)>, t: Seq<(u64, B)>, k: u64)
    requires
        s.len() == t.len(),
        forall|i: int| 0 <= i < s.len() ==> s[i].0 == t[i].0,
    ensures
        spec_find(s, k) == spec_find(t, k),
    decreases s.len(),
{
    if s.len() > 0 {
        assert forall|i: int| 0 <= i < s.drop_first().len() implies s.drop_first()[i].0
            == t.drop_first()[i].0 by {
            assert(s.drop_first()[i] == s[i + 1]);
            assert(t.drop_first()[i] == t[i + 1]);
        }
        lemma_spec_find_same_keys(s.drop_first(), t.drop_first(), k);
    }
}

/// A scan that saw no earlier hit and finds `k` at `i` pins `spec_find`.
proof fn lemma_spec_find_first_hit<T>(s: Seq<(u64, T)>, k: u64, i: int)
    requires
        0 <= i < s.len(),
        s[i].0 == k,
        forall|j: int| 0 <= j < i ==> s[j].0 != k,
    ensures
        spec_find(s, k) == Some(i),
    decreases s.len(),
{
    if i > 0 {
        assert forall|j: int| 0 <= j < i - 1 implies s.drop_first()[j].0 != k by {
            assert(s.drop_first()[j] == s[j + 1]);
        }
        assert(s.drop_first()[i - 1] == s[i]);
        lemma_spec_find_first_hit(s.drop_first(), k, i - 1);
    }
}

} // verus!
