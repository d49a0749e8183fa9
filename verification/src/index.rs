//! The primary index: an ordered mapping from vector identifier to the
//! byte offset of the record's start marker in the data buffer.
//!
//! Entries are held sorted by identifier, mirroring the B-tree-style
//! index of a conventional database; because identifiers are assigned
//! monotonically and flushes are ordered, offsets are strictly
//! increasing in identifier order.

use vstd::prelude::*;

verus! {

/// First match wins: the offset stored under a key, if any.
pub open spec fn spec_lookup(s: Seq<(u64, u64)>, k: u64) -> Option<u64>
    decreases s.len(),
{
    if s.len() == 0 {
        None
    } else if s[0].0 == k {
        Some(s[0].1)
    } else {
        spec_lookup(s.drop_first(), k)
    }
}

/// Entries are strictly sorted by key.
pub open spec fn sorted_by_key(s: Seq<(u64, u64)>) -> bool {
    forall|i: int, j: int| 0 <= i < j < s.len() ==> s[i].0 < s[j].0
}

/// A key that stands at `i` behind no equal key looks up to its value.
pub proof fn lemma_lookup_present(s: Seq<(u64, u64)>, i: int)
    requires
        0 <= i < s.len(),
        forall|j: int| 0 <= j < i ==> s[j].0 != s[i].0,
    ensures
        spec_lookup(s, s[i].0) == Some(s[i].1),
    decreases i,
{
    if i == 0 {
    } else {
        assert(s.drop_first()[i - 1] == s[i]);
        lemma_lookup_present(s.drop_first(), i - 1);
    }
}

/// A key that appears nowhere looks up to nothing.
pub proof fn lemma_lookup_absent(s: Seq<(u64, u64)>, k: u64)
    requires
        forall|j: int| 0 <= j < s.len() ==> s[j].0 != k,
    ensures
        spec_lookup(s, k) is None,
    decreases s.len(),
{
    if s.len() == 0 {
    } else {
        assert(forall|j: int|
            0 <= j < s.drop_first().len() ==> s.drop_first()[j] == s[j + 1]);
        lemma_lookup_absent(s.drop_first(), k);
    }
}

/// A successful lookup names an entry of the sequence.
pub proof fn lemma_lookup_some_exists(s: Seq<(u64, u64)>, k: u64, v: u64)
    requires
        spec_lookup(s, k) == Some(v),
    ensures
        exists|i: int| 0 <= i < s.len() && s[i] == (k, v),
    decreases s.len(),
{
    if s.len() == 0 {
    } else if s[0].0 == k {
        assert(s[0] == (k, v));
    } else {
        lemma_lookup_some_exists(s.drop_first(), k, v);
        let i = choose|i: int| 0 <= i < s.drop_first().len() && s.drop_first()[i] == (k, v);
        assert(s[i + 1] == (k, v));
    }
}

/// The primary index.
pub struct PrimaryIndex {
    entries: Vec<(u64, u64)>,
}

impl View for PrimaryIndex {
    type V = Seq<(u64, u64)>;

    closed spec fn view(&self) -> Seq<(u64, u64)> {
        self.entries@
    }
}

impl PrimaryIndex {
    /// Entries are strictly sorted by identifier.
    pub open spec fn wf(self) -> bool {
        sorted_by_key(self@)
    }

    /// An empty index.
    pub fn new() -> (r: PrimaryIndex)
        ensures
            r@ == Seq::<(u64, u64)>::empty(),
            r.wf(),
    {
        PrimaryIndex { entries: Vec::new() }
    }

    /// Number of indexed identifiers.
    pub fn len(&self) -> (r: usize)
        ensures
            r == self@.len(),
    {
        self.entries.len()
    }

    /// The entries in identifier order, as serialized into a snapshot.
    pub fn entries(&self) -> (r: &Vec<(u64, u64)>)
        ensures
            r@ == self@,
    {
        &self.entries
    }

    /// Drops every entry.
    pub fn clear(&mut self)
        ensures
            final(self)@ == Seq::<(u64, u64)>::empty(),
            final(self).wf(),
    {
        self.entries = Vec::new();
    }

    /// Maps `id` to `offset`, keeping the order; an existing entry for
    /// `id` is replaced.  Appending a largest identifier is exactly a
    /// push, which is how ordered flushes extend the index.
    pub fn insert(&mut self, id: u64, offset: u64)
        requires
            old(self).wf(),
        ensures
            final(self).wf(),
            spec_lookup(final(self)@, id) == Some(offset),
            (old(self)@.len() == 0 || old(self)@.last().0 < id) ==> final(self)@ == old(
                self,
            )@.push((id, offset)),
    {
        let n = self.entries.len();
        let mut pos: usize = 0;
        while pos < n && self.entries[pos].0 < id
            invariant
                0 <= pos <= n,
                n == self.entries@.len(),
                forall|j: int| 0 <= j < pos ==> self.entries@[j].0 < id,
                old(self).wf(),
                self.entries@ == old(self)@,
            decreases n - pos,
        {
            pos = pos + 1;
        }
        if pos < n && self.entries[pos].0 == id {
            self.entries.remove(pos);
            self.entries.insert(pos, (id, offset));
            proof {
                assert(final(self)@ =~= old(self)@.update(pos as int, (id, offset)));
                assert(final(self).wf());
                lemma_lookup_present(final(self)@, pos as int);
            }
        } else {
            self.entries.insert(pos, (id, offset));
            proof {
                assert(final(self).wf()) by {
                    assert(forall|j: int|
                        0 <= j < pos ==> final(self)@[j] == old(self)@[j]);
                    assert(forall|j: int|
                        pos < j < final(self)@.len() ==> final(self)@[j] == old(self)@[j - 1]);
                    assert(forall|j: int|
                        pos < j < final(self)@.len() ==> final(self)@[j].0 > id) by {
                        assert(pos == old(self)@.len() || old(self)@[pos as int].0 > id);
                    }
                }
                lemma_lookup_present(final(self)@, pos as int);
                if old(self)@.len() == 0 || old(self)@.last().0 < id {
                    assert(pos == old(self)@.len());
                    assert(final(self)@ =~= old(self)@.push((id, offset)));
                }
            }
        }
    }

    /// Looks up the offset stored under an identifier.
    pub fn get(&self, id: u64) -> (r: Option<u64>)
        requires
            self.wf(),
        ensures
            r == spec_lookup(self@, id),
    {
        let n = self.entries.len();
        let mut pos: usize = 0;
        while pos < n
            invariant
                0 <= pos <= n,
                n == self.entries@.len(),
                self.wf(),
                forall|j: int| 0 <= j < pos ==> self.entries@[j].0 != id,
            decreases n - pos,
        {
            let e = self.entries[pos];
            if e.0 == id {
                proof {
                    lemma_lookup_present(self@, pos as int);
                }
                return Some(e.1);
            }
            pos = pos + 1;
        }
        proof {
            lemma_lookup_absent(self@, id);
        }
        None
    }

    /// Rebuilds an index from identifier/offset pairs, as read back
    /// from a snapshot.  Pairs that already stand in identifier order
    /// with distinct identifiers are reproduced exactly.
    pub fn from_pairs(pairs: &Vec<(u64, u64)>) -> (r: PrimaryIndex)
        ensures
            r.wf(),
            sorted_by_key(pairs@) ==> r@ == pairs@,
    {
        let mut r = PrimaryIndex::new();
        let n = pairs.len();
        let mut k: usize = 0;
        proof {
            assert(pairs@.take(0) =~= Seq::<(u64, u64)>::empty());
        }
        while k < n
            invariant
                0 <= k <= n,
                n == pairs@.len(),
                r.wf(),
                sorted_by_key(pairs@) ==> r@ == pairs@.take(k as int),
            decreases n - k,
        {
            let ghost prev = r@;
            let p = pairs[k];
            r.insert(p.0, p.1);
            proof {
                if sorted_by_key(pairs@) {
                    assert(prev.len() == 0 || prev.last().0 < p.0);
                    assert(r@ =~= pairs@.take(k + 1));
                }
            }
            k = k + 1;
        }
        proof {
            assert(pairs@.take(n as int) =~= pairs@);
        }
        r
    }
}

} // verus!
