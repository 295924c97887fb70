//! Case-insensitive, stable ordering of snippet names: the serializer renders
//! a table with its keys sorted by the lexicographic order of their lowercase
//! forms, ties keeping their insertion order.

use vstd::prelude::*;
use crate::text::chars_of;

verus! {

/// What `str::to_lowercase` returns for the given characters.
pub uninterp spec fn lower_of(s: Seq<char>) -> Seq<char>;

/// Relies on `str::to_lowercase`: the result depends on the characters alone.
#[verifier::external_body]
pub fn to_lowercase(s: &str) -> (r: String)
    ensures
        r@ == lower_of(s@),
{
    s.to_lowercase()
}

/// Lexicographic order on character sequences, by code point.
pub open spec fn lex_le(a: Seq<char>, b: Seq<char>) -> bool
    decreases a.len(),
{
    if a.len() == 0 {
        true
    } else if b.len() == 0 {
        false
    } else if a[0] == b[0] {
        lex_le(a.skip(1), b.skip(1))
    } else {
        (a[0] as u32) < (b[0] as u32)
    }
}

/// The case-insensitive order on names: the order of the lowercased forms.
pub open spec fn name_le(a: Seq<char>, b: Seq<char>) -> bool {
    lex_le(lower_of(a), lower_of(b))
}

/// The order is reflexive.
pub proof fn lemma_lex_le_reflexive(a: Seq<char>)
    ensures
        lex_le(a, a),
    decreases a.len(),
{
    if a.len() > 0 {
        lemma_lex_le_reflexive(a.skip(1));
    }
}

/// The order is total: every two sequences are comparable.
pub proof fn lemma_lex_le_total(a: Seq<char>, b: Seq<char>)
    ensures
        lex_le(a, b) || lex_le(b, a),
    decreases a.len(),
{
    if a.len() > 0 && b.len() > 0 {
        if a[0] == b[0] {
            lemma_lex_le_total(a.skip(1), b.skip(1));
        } else {
            vstd::utf8::char_u32_cast(a[0], a[0] as u32);
            vstd::utf8::char_u32_cast(b[0], b[0] as u32);
            assert((a[0] as u32) != (b[0] as u32));
        }
    }
}

/// The order is antisymmetric: mutually ordered sequences are equal.
pub proof fn lemma_lex_le_antisymmetric(a: Seq<char>, b: Seq<char>)
    requires
        lex_le(a, b),
        lex_le(b, a),
    ensures
        a == b,
    decreases a.len(),
{
    if a.len() == 0 {
        assert(b.len() == 0);
        assert(a =~= b);
    } else if a[0] == b[0] {
        lemma_lex_le_antisymmetric(a.skip(1), b.skip(1));
        assert(a.skip(1) == b.skip(1));
        assert(a.len() == b.len());
        assert forall|i: int| 0 <= i < a.len() implies a[i] == b[i] by {
            if i > 0 {
                assert(a[i] == a.skip(1)[i - 1]);
                assert(b[i] == b.skip(1)[i - 1]);
            }
        }
        assert(a =~= b);
    }
}

/// The order is transitive.
pub proof fn lemma_lex_le_transitive(a: Seq<char>, b: Seq<char>, c: Seq<char>)
    requires
        lex_le(a, b),
        lex_le(b, c),
    ensures
        lex_le(a, c),
    decreases a.len(),
{
    if a.len() == 0 {
    } else {
        assert(b.len() > 0);
        assert(c.len() > 0);
        if a[0] == b[0] && b[0] == c[0] {
            lemma_lex_le_transitive(a.skip(1), b.skip(1), c.skip(1));
        }
    }
}

/// Decides [`lex_le`].
pub fn chars_le(a: &Vec<char>, b: &Vec<char>) -> (r: bool)
    ensures
        r == lex_le(a@, b@),
{
    let mut i: usize = 0;
    proof {
        assert(a@.skip(0) =~= a@);
        assert(b@.skip(0) =~= b@);
    }
    while i < a.len() && i < b.len()
        invariant
            i <= a@.len(),
            i <= b@.len(),
            lex_le(a@, b@) == lex_le(a@.skip(i as int), b@.skip(i as int)),
        decreases a@.len() - i,
    {
        if a[i] != b[i] {
            return (a[i] as u32) < (b[i] as u32);
        }
        i = i + 1;
        proof {
            assert(a@.skip(i - 1).skip(1) =~= a@.skip(i as int));
            assert(b@.skip(i - 1).skip(1) =~= b@.skip(i as int));
        }
    }
    i >= a.len()
}

/// The predicate that keeps the entries whose lowered key is exactly `k`.
pub open spec fn same_low_pred<T>(k: Seq<char>) -> spec_fn((Seq<char>, T)) -> bool {
    |e: (Seq<char>, T)| lower_of(e.0) == k
}

/// Entries in case-insensitive sorted order.
pub open spec fn sorted_by_name<T>(s: Seq<(Seq<char>, T)>) -> bool {
    forall|i: int, j: int|
        0 <= i <= j < s.len() ==> lex_le(
            lower_of((#[trigger] s[i]).0),
            lower_of((#[trigger] s[j]).0),
        )
}

/// Where a new entry comes to rest in a sorted run: after every entry whose
/// lowered key is not greater than its own, so that equal keys keep their
/// arrival order.
pub open spec fn insert_sorted<T>(s: Seq<(Seq<char>, T)>, x: (Seq<char>, T)) -> Seq<
    (Seq<char>, T),
>
    decreases s.len(),
{
    if s.len() == 0 {
        seq![x]
    } else if lex_le(lower_of(s.last().0), lower_of(x.0)) {
        s.push(x)
    } else {
        insert_sorted(s.drop_last(), x).push(s.last())
    }
}

/// The stable, case-insensitive sort of the entries: each entry in turn is
/// placed after all earlier arrivals that do not exceed it.
pub open spec fn sort_entries_spec<T>(s: Seq<(Seq<char>, T)>) -> Seq<(Seq<char>, T)>
    decreases s.len(),
{
    if s.len() == 0 {
        Seq::empty()
    } else {
        insert_sorted(sort_entries_spec(s.drop_last()), s.last())
    }
}

/// Inserting into a sorted run keeps it sorted, adds exactly the new entry,
/// and invents no entries.
proof fn lemma_insert_sorted<T>(s: Seq<(Seq<char>, T)>, x: (Seq<char>, T))
    requires
        sorted_by_name(s),
    ensures
        sorted_by_name(insert_sorted(s, x)),
        insert_sorted(s, x).to_multiset() == s.to_multiset().insert(x),
        insert_sorted(s, x).len() == s.len() + 1,
        forall|i: int|
            0 <= i < insert_sorted(s, x).len() ==> (#[trigger] insert_sorted(s, x)[i]) == x
                || s.contains(insert_sorted(s, x)[i]),
    decreases s.len(),
{
    let res = insert_sorted(s, x);
    if s.len() == 0 {
        s.to_multiset_ensures();
        assert(s =~= Seq::<(Seq<char>, T)>::empty());
        assert(res =~= s.push(x));
        assert(s.push(x).to_multiset() =~= s.to_multiset().insert(x));
        lemma_lex_le_reflexive(lower_of(x.0));
    } else if lex_le(lower_of(s.last().0), lower_of(x.0)) {
        assert(res == s.push(x));
        s.to_multiset_ensures();
        assert(s.push(x).to_multiset() =~= s.to_multiset().insert(x));
        lemma_lex_le_reflexive(lower_of(x.0));
        assert forall|i: int, j: int|
            0 <= i <= j < res.len() implies lex_le(
            lower_of((#[trigger] res[i]).0),
            lower_of((#[trigger] res[j]).0),
        ) by {
            if j < s.len() {
                assert(res[i] == s[i] && res[j] == s[j]);
            } else if i < s.len() {
                assert(res[i] == s[i] && res[j] == x);
                assert(lex_le(lower_of(s[i].0), lower_of(s.last().0)));
                lemma_lex_le_transitive(lower_of(s[i].0), lower_of(s.last().0), lower_of(x.0));
            }
        }
    } else {
        let d = s.drop_last();
        assert(d.len() == s.len() - 1);
        assert forall|i: int, j: int| 0 <= i <= j < d.len() implies lex_le(
            lower_of((#[trigger] d[i]).0),
            lower_of((#[trigger] d[j]).0),
        ) by {
            assert(d[i] == s[i] && d[j] == s[j]);
            assert(lex_le(lower_of(s[i].0), lower_of(s[j].0)));
        }
        lemma_insert_sorted(d, x);
        let t = insert_sorted(d, x);
        assert(res == t.push(s.last()));
        lemma_lex_le_total(lower_of(s.last().0), lower_of(x.0));
        assert(lex_le(lower_of(x.0), lower_of(s.last().0)));
        lemma_lex_le_reflexive(lower_of(s.last().0));
        assert forall|i: int, j: int|
            0 <= i <= j < res.len() implies lex_le(
            lower_of((#[trigger] res[i]).0),
            lower_of((#[trigger] res[j]).0),
        ) by {
            if j < t.len() {
                assert(res[i] == t[i] && res[j] == t[j]);
            } else if i < t.len() {
                assert(res[i] == t[i] && res[j] == s.last());
                if t[i] == x {
                    assert(lex_le(lower_of(x.0), lower_of(s.last().0)));
                } else {
                    assert(d.contains(t[i]));
                    let w = choose|w: int| 0 <= w < d.len() && d[w] == t[i];
                    assert(s[w] == t[i]);
                    assert(lex_le(lower_of(s[w].0), lower_of(s.last().0)));
                }
            }
        }
        t.to_multiset_ensures();
        d.to_multiset_ensures();
        assert(t.push(s.last()).to_multiset() =~= t.to_multiset().insert(s.last()));
        assert(res.to_multiset() =~= t.to_multiset().insert(s.last()));
        assert(d.push(s.last()) =~= s);
        assert(d.push(s.last()).to_multiset() =~= d.to_multiset().insert(s.last()));
        assert(s.to_multiset() =~= d.to_multiset().insert(s.last()));
        assert(t.to_multiset().insert(s.last()) =~= d.to_multiset().insert(x).insert(s.last()));
        assert(d.to_multiset().insert(x).insert(s.last()) =~= d.to_multiset().insert(
            s.last(),
        ).insert(x));
        assert forall|i: int|
            0 <= i < res.len() implies (#[trigger] res[i]) == x || s.contains(res[i]) by {
            if i < t.len() {
                assert(res[i] == t[i]);
                if t[i] != x {
                    assert(d.contains(t[i]));
                    let w = choose|w: int| 0 <= w < d.len() && d[w] == t[i];
                    assert(s[w] == t[i]);
                }
            } else {
                assert(res[i] == s[s.len() - 1]);
            }
        }
    }
}

/// The sort yields a case-insensitively ordered permutation of its input.
pub proof fn lemma_sort_entries_sorted<T>(s: Seq<(Seq<char>, T)>)
    ensures
        sorted_by_name(sort_entries_spec(s)),
        sort_entries_spec(s).to_multiset() == s.to_multiset(),
        sort_entries_spec(s).len() == s.len(),
    decreases s.len(),
{
    if s.len() == 0 {
        assert(s =~= Seq::<(Seq<char>, T)>::empty());
        assert(sort_entries_spec(s) =~= Seq::<(Seq<char>, T)>::empty());
    } else {
        let d = s.drop_last();
        lemma_sort_entries_sorted(d);
        lemma_insert_sorted(sort_entries_spec(d), s.last());
        assert(sort_entries_spec(s) == insert_sorted(sort_entries_spec(d), s.last()));
        assert(sort_entries_spec(s).to_multiset() == sort_entries_spec(d).to_multiset().insert(
            s.last(),
        ));
        assert(d.push(s.last()) =~= s);
        d.to_multiset_ensures();
        assert(d.push(s.last()).to_multiset() =~= d.to_multiset().insert(s.last()));
        assert(s.to_multiset() =~= d.to_multiset().insert(s.last()));
        assert(sort_entries_spec(s).to_multiset() =~= s.to_multiset());
    }
}

/// Inserting an entry moves it past larger keys only: what matches any fixed
/// lowered key is otherwise untouched.
proof fn lemma_insert_sorted_filter<T>(s: Seq<(Seq<char>, T)>, x: (Seq<char>, T), k: Seq<char>)
    ensures
        insert_sorted(s, x).filter(same_low_pred::<T>(k)) == if lower_of(x.0) == k {
            s.filter(same_low_pred::<T>(k)).push(x)
        } else {
            s.filter(same_low_pred::<T>(k))
        },
    decreases s.len(),
{
    reveal(Seq::filter);
    let pred = same_low_pred::<T>(k);
    let res = insert_sorted(s, x);
    if s.len() == 0 {
        assert(s =~= Seq::<(Seq<char>, T)>::empty());
        assert(seq![x].drop_last() =~= s);
        assert(seq![x].last() == x);
        assert(s.filter(pred) == s);
        if pred(x) {
            assert(seq![x].filter(pred) =~= s.filter(pred).push(x));
        } else {
            assert(seq![x].filter(pred) =~= s.filter(pred));
        }
    } else if lex_le(lower_of(s.last().0), lower_of(x.0)) {
        assert(res == s.push(x));
        assert(res.drop_last() =~= s);
        assert(res.last() == x);
    } else {
        lemma_insert_sorted_filter(s.drop_last(), x, k);
        let t = insert_sorted(s.drop_last(), x);
        assert(res == t.push(s.last()));
        assert(res.drop_last() =~= t);
        assert(res.last() == s.last());
        if lower_of(x.0) == k {
            // the displaced entry has a strictly greater key than the new one
            lemma_lex_le_total(lower_of(s.last().0), lower_of(x.0));
            if lower_of(s.last().0) == k {
                lemma_lex_le_reflexive(k);
                assert(false);
            }
            assert(res.filter(pred) == t.filter(pred));
            assert(s.filter(pred) == s.drop_last().filter(pred));
        } else {
            if pred(s.last()) {
                assert(res.filter(pred) == t.filter(pred).push(s.last()));
                assert(s.filter(pred) == s.drop_last().filter(pred).push(s.last()));
            } else {
                assert(res.filter(pred) == t.filter(pred));
                assert(s.filter(pred) == s.drop_last().filter(pred));
            }
        }
    }
}

/// Stability: the entries whose lowered key equals any fixed `k` appear in
/// the sorted table exactly as they appeared in the input.
pub proof fn lemma_sort_entries_stable<T>(s: Seq<(Seq<char>, T)>, k: Seq<char>)
    ensures
        sort_entries_spec(s).filter(same_low_pred::<T>(k)) == s.filter(same_low_pred::<T>(k)),
    decreases s.len(),
{
    reveal(Seq::filter);
    let pred = same_low_pred::<T>(k);
    if s.len() == 0 {
    } else {
        lemma_sort_entries_stable(s.drop_last(), k);
        lemma_insert_sorted_filter(sort_entries_spec(s.drop_last()), s.last(), k);
        if lower_of(s.last().0) == k {
            assert(s.filter(pred) == s.drop_last().filter(pred).push(s.last()));
        } else {
            assert(s.filter(pred) == s.drop_last().filter(pred));
        }
    }
}

/// The case-insensitive name order is total.
pub proof fn lemma_name_le_total(a: Seq<char>, b: Seq<char>)
    ensures
        name_le(a, b) || name_le(b, a),
{
    lemma_lex_le_total(lower_of(a), lower_of(b));
}

/// Mutually ordered names have the same lowered form.
pub proof fn lemma_name_le_antisymmetric(a: Seq<char>, b: Seq<char>)
    requires
        name_le(a, b),
        name_le(b, a),
    ensures
        lower_of(a) == lower_of(b),
{
    lemma_lex_le_antisymmetric(lower_of(a), lower_of(b));
}

/// The case-insensitive name order is transitive.
pub proof fn lemma_name_le_transitive(a: Seq<char>, b: Seq<char>, c: Seq<char>)
    requires
        name_le(a, b),
        name_le(b, c),
    ensures
        name_le(a, c),
{
    lemma_lex_le_transitive(lower_of(a), lower_of(b), lower_of(c));
}

/// The view of a run of owned entries.
pub open spec fn entry_views<V: View>(s: Seq<(String, V)>) -> Seq<(Seq<char>, V::V)> {
    s.map_values(|p: (String, V)| (p.0@, p.1@))
}

/// Where the scan of [`sort_entries`] stops, the insertion point of
/// [`insert_sorted`] lies.
proof fn lemma_insert_sorted_at<T>(s: Seq<(Seq<char>, T)>, x: (Seq<char>, T), p: int)
    requires
        0 <= p <= s.len(),
        forall|j: int| p <= j < s.len() ==> !lex_le(lower_of((#[trigger] s[j]).0), lower_of(x.0)),
        p == 0 || lex_le(lower_of(s[p - 1].0), lower_of(x.0)),
    ensures
        insert_sorted(s, x) == s.take(p).push(x) + s.skip(p),
    decreases s.len(),
{
    if s.len() == 0 {
        assert(insert_sorted(s, x) =~= s.take(0).push(x) + s.skip(0));
    } else if lex_le(lower_of(s.last().0), lower_of(x.0)) {
        assert(p == s.len());
        assert(insert_sorted(s, x) =~= s.take(p).push(x) + s.skip(p));
    } else {
        assert(p < s.len());
        let d = s.drop_last();
        assert forall|j: int|
            p <= j < d.len() implies !lex_le(lower_of((#[trigger] d[j]).0), lower_of(x.0)) by {
            assert(d[j] == s[j]);
        }
        if p > 0 {
            assert(d[p - 1] == s[p - 1]);
        }
        lemma_insert_sorted_at(d, x, p);
        assert(insert_sorted(s, x) =~= (d.take(p).push(x) + d.skip(p)).push(s.last()));
        assert(d.take(p) =~= s.take(p));
        assert((d.take(p).push(x) + d.skip(p)).push(s.last()) =~= s.take(p).push(x) + s.skip(p));
    }
}

/// Sorts the entries by the lowercase form of their keys, stably.
pub fn sort_entries<V: View>(entries: Vec<(String, V)>) -> (r: Vec<(String, V)>)
    ensures
        entry_views(r@) == sort_entries_spec(entry_views(entries@)),
{
    let mut entries = entries;
    let ghost orig = entry_views(entries@);
    let mut out: Vec<(String, V)> = Vec::new();
    let mut lows: Vec<Vec<char>> = Vec::new();
    proof {
        assert(entry_views(out@) =~= Seq::<(Seq<char>, V::V)>::empty());
        assert(orig.take(0) =~= Seq::<(Seq<char>, V::V)>::empty());
        assert(sort_entries_spec(orig.take(0)) =~= Seq::<(Seq<char>, V::V)>::empty());
    }
    while entries.len() > 0
        invariant
            entries@.len() <= orig.len(),
            orig.len() - entries@.len() == out@.len(),
            out@.len() == lows@.len(),
            forall|k: int|
                0 <= k < entries@.len() ==> ((#[trigger] entries@[k]).0@, entries@[k].1@) == orig[k
                    + (orig.len() - entries@.len())],
            forall|j: int| 0 <= j < lows@.len() ==> (#[trigger] lows@[j])@ == lower_of(out@[j].0@),
            entry_views(out@) == sort_entries_spec(orig.take(orig.len() - entries@.len())),
        decreases entries@.len(),
    {
        let ghost i = orig.len() - entries@.len();
        let ghost ents0 = entries@;
        let ghost sorted0 = entry_views(out@);
        let e = entries.remove(0);
        proof {
            assert((e.0@, e.1@) == orig[i]);
            assert(entries@ =~= ents0.skip(1));
            assert forall|k: int|
                0 <= k < entries@.len() implies ((#[trigger] entries@[k]).0@, entries@[k].1@)
                    == orig[k + (orig.len() - entries@.len())] by {
                assert(entries@[k] == ents0[k + 1]);
            }
        }
        let lowered = to_lowercase(e.0.as_str());
        let low = chars_of(lowered.as_str());
        let mut pos: usize = out.len();
        while pos > 0 && !chars_le(&lows[pos - 1], &low)
            invariant
                pos <= out@.len(),
                out@.len() == lows@.len(),
                low@ == lower_of(e.0@),
                forall|j: int|
                    0 <= j < lows@.len() ==> (#[trigger] lows@[j])@ == lower_of(out@[j].0@),
                forall|j: int|
                    pos <= j < out@.len() ==> !lex_le(
                        lower_of((#[trigger] out@[j]).0@),
                        lower_of(e.0@),
                    ),
            decreases pos,
        {
            pos = pos - 1;
        }
        proof {
            let sv = entry_views(out@);
            assert forall|j: int|
                pos <= j < sv.len() implies !lex_le(
                lower_of((#[trigger] sv[j]).0),
                lower_of(orig[i].0),
            ) by {
                assert(sv[j] == (out@[j].0@, out@[j].1@));
            }
            if pos > 0 {
                assert(sv[pos - 1] == (out@[pos - 1].0@, out@[pos - 1].1@));
            }
            lemma_insert_sorted_at(sv, orig[i], pos as int);
        }
        out.insert(pos, e);
        lows.insert(pos, low);
        proof {
            assert forall|j: int|
                0 <= j < lows@.len() implies (#[trigger] lows@[j])@ == lower_of(out@[j].0@) by {
                if j < pos {
                    assert(lows@[j] == lows@.subrange(0, pos as int)[j]);
                } else if j > pos {
                }
            }
            assert(entry_views(out@) =~= sorted0.take(pos as int).push((e.0@, e.1@))
                + sorted0.skip(pos as int));
            assert(orig.take(i + 1).drop_last() =~= orig.take(i));
            assert(orig.take(i + 1).last() == orig[i]);
            assert(entry_views(out@) == sort_entries_spec(orig.take(i + 1)));
        }
    }
    proof {
        assert(orig.take(orig.len() as int) =~= orig);
    }
    out
}

} // verus!
