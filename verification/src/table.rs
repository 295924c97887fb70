//! The table that backs a snippet collection: a mapping from snippet name to
//! record with map semantics (one entry per key, last write wins) and a
//! remembered insertion order.

use vstd::prelude::*;

use crate::text::str_eq;

verus! {

/// The position of the first entry of `m` with key `k`, or `m.len()` when
/// no entry has that key.
pub open spec fn key_pos<T>(m: Seq<(Seq<char>, T)>, k: Seq<char>) -> int
    decreases m.len(),
{
    if m.len() == 0 {
        0
    } else if m[0].0 == k {
        0
    } else {
        1 + key_pos(m.skip(1), k)
    }
}

/// Whether some entry of `m` has key `k`.
pub open spec fn has_key<T>(m: Seq<(Seq<char>, T)>, k: Seq<char>) -> bool {
    key_pos(m, k) < m.len()
}

/// The value stored under `k`, when present.
pub open spec fn lookup<T>(m: Seq<(Seq<char>, T)>, k: Seq<char>) -> Option<T> {
    if has_key(m, k) {
        Some(m[key_pos(m, k)].1)
    } else {
        None
    }
}

/// `m` after writing `v` under `k`: the existing entry is overwritten in
/// place, a new key is appended at the end.
pub open spec fn insert_entry<T>(m: Seq<(Seq<char>, T)>, k: Seq<char>, v: T) -> Seq<
    (Seq<char>, T),
> {
    if has_key(m, k) {
        m.update(key_pos(m, k), (k, v))
    } else {
        m.push((k, v))
    }
}

/// `key_pos` is the index of the first match: a scan that saw no match up to
/// `i` and a match (or the end) at `i` has found it.
pub proof fn lemma_key_pos_boundary<T>(m: Seq<(Seq<char>, T)>, k: Seq<char>, i: int)
    requires
        0 <= i <= m.len(),
        forall|j: int| 0 <= j < i ==> m[j].0 != k,
        i == m.len() || m[i].0 == k,
    ensures
        key_pos(m, k) == i,
        0 <= key_pos(m, k) <= m.len(),
    decreases i,
{
    if m.len() == 0 {
    } else if m[0].0 == k {
    } else {
        lemma_key_pos_boundary(m.skip(1), k, i - 1);
    }
}

/// `key_pos` stays within the table and points at the key it finds.
pub proof fn lemma_key_pos_range<T>(m: Seq<(Seq<char>, T)>, k: Seq<char>)
    ensures
        0 <= key_pos(m, k) <= m.len(),
        key_pos(m, k) < m.len() ==> m[key_pos(m, k)].0 == k,
        forall|j: int| 0 <= j < key_pos(m, k) ==> (#[trigger] m[j]).0 != k,
    decreases m.len(),
{
    if m.len() == 0 {
    } else if m[0].0 == k {
    } else {
        lemma_key_pos_range(m.skip(1), k);
        assert forall|j: int| 0 <= j < key_pos(m, k) implies (#[trigger] m[j]).0 != k by {
            if j > 0 {
                assert(m.skip(1)[j - 1] == m[j]);
            }
        }
    }
}

/// A mapping from snippet name to record.
pub struct Table<V> {
    entries: Vec<(String, V)>,
}

impl<V: View> View for Table<V> {
    type V = Seq<(Seq<char>, V::V)>;

    closed spec fn view(&self) -> Seq<(Seq<char>, V::V)> {
        self.entries@.map_values(|p: (String, V)| (p.0@, p.1@))
    }
}

impl<V: View> Table<V> {
    /// Every key appears in at most one entry.
    pub open spec fn wf(&self) -> bool {
        forall|i: int, j: int| 0 <= i < j < self@.len() ==> (#[trigger] self@[i]).0 != (
        #[trigger] self@[j]).0
    }

    /// An empty table.
    pub fn new() -> (r: Table<V>)
        ensures
            r@ == Seq::<(Seq<char>, V::V)>::empty(),
            r.wf(),
    {
        let r = Table { entries: Vec::new() };
        proof {
            assert(r@ =~= Seq::<(Seq<char>, V::V)>::empty());
        }
        r
    }

    /// How many entries the table holds.
    pub fn len(&self) -> (n: usize)
        ensures
            n == self@.len(),
    {
        self.entries.len()
    }

    /// Whether the table holds no entry.
    pub fn is_empty(&self) -> (r: bool)
        ensures
            r == (self@.len() == 0),
    {
        self.entries.is_empty()
    }

    /// The entries in insertion order, surrendering the table.
    pub fn into_entries(self) -> (r: Vec<(String, V)>)
        ensures
            r@.len() == self@.len(),
            forall|i: int|
                0 <= i < r@.len() ==> ((#[trigger] r@[i]).0@, r@[i].1@) == self@[i],
    {
        self.entries
    }

    /// The entry at position `i`, in insertion order.
    pub fn entry_at<'a>(&'a self, i: usize) -> (r: &'a (String, V))
        requires
            i < self@.len(),
        ensures
            r.0@ == self@[i as int].0,
            r.1@ == self@[i as int].1,
    {
        &self.entries[i]
    }

    /// The value stored under `k`, when present.
    pub fn get<'a>(&'a self, k: &str) -> (r: Option<&'a V>)
        ensures
            match lookup(self@, k@) {
                Some(v) => r matches Some(rv) && rv@ == v,
                None => r is None,
            },
    {
        let mut i: usize = 0;
        while i < self.entries.len()
            invariant
                i <= self@.len(),
                self@.len() == self.entries@.len(),
                forall|j: int| 0 <= j < i ==> (#[trigger] self@[j]).0 != k@,
            decreases self@.len() - i,
        {
            if str_eq(self.entries[i].0.as_str(), k) {
                proof {
                    lemma_key_pos_boundary(self@, k@, i as int);
                }
                return Some(&self.entries[i].1);
            }
            i = i + 1;
        }
        proof {
            lemma_key_pos_boundary(self@, k@, self@.len() as int);
        }
        None
    }

    /// Writes `v` under `k`: an existing entry is overwritten in place, a new
    /// key is appended at the end.
    pub fn insert(&mut self, k: String, v: V)
        requires
            old(self).wf(),
        ensures
            final(self)@ == insert_entry(old(self)@, k@, v@),
            final(self).wf(),
    {
        let ghost m = self@;
        let ghost ents0 = self.entries@;
        let mut i: usize = 0;
        while i < self.entries.len()
            invariant
                i <= m.len(),
                self@ == m,
                m == old(self)@,
                old(self).wf(),
                self.entries@ == ents0,
                self.entries@.len() == m.len(),
                forall|j: int| 0 <= j < i ==> (#[trigger] m[j]).0 != k@,
            decreases m.len() - i,
        {
            if str_eq(self.entries[i].0.as_str(), k.as_str()) {
                proof {
                    lemma_key_pos_boundary(m, k@, i as int);
                }
                self.entries.remove(i);
                self.entries.insert(i, (k, v));
                proof {
                    assert(self.entries@ =~= ents0.update(i as int, (k, v)));
                    assert forall|x: int| 0 <= x < self@.len() implies self@[x] == m.update(
                        i as int,
                        (k@, v@),
                    )[x] by {
                        assert(self@[x] == (self.entries@[x].0@, self.entries@[x].1@));
                        assert(m[x] == (ents0[x].0@, ents0[x].1@));
                    }
                    assert(self@ =~= m.update(i as int, (k@, v@)));
                    assert(m[i as int].0 == k@);
                    assert forall|a: int, b: int| 0 <= a < b < self@.len() implies (
                    #[trigger] self@[a]).0 != (#[trigger] self@[b]).0 by {
                        assert(m[a].0 != m[b].0);
                        assert(self@[a].0 == m[a].0 && self@[b].0 == m[b].0);
                    }
                }
                return ;
            }
            i = i + 1;
        }
        proof {
            lemma_key_pos_boundary(m, k@, m.len() as int);
        }
        self.entries.push((k, v));
        proof {
            assert forall|x: int| 0 <= x < self@.len() implies self@[x] == m.push((k@, v@))[x] by {
                assert(self@[x] == (self.entries@[x].0@, self.entries@[x].1@));
                if x < m.len() {
                    assert(m[x] == (ents0[x].0@, ents0[x].1@));
                }
            }
            assert(self@ =~= m.push((k@, v@)));
            assert forall|a: int, b: int| 0 <= a < b < self@.len() implies (
            #[trigger] self@[a]).0 != (#[trigger] self@[b]).0 by {
                if b < m.len() {
                    assert(m[a].0 != m[b].0);
                } else {
                    assert(self@[b].0 == k@);
                    assert(m[a].0 != k@);
                }
            }
        }
    }
}

} // verus!
