//! Character-level text transforms shared by the parser, the record
//! converters and the serializer: escape normalization, whitespace handling
//! and tokenization.
//!
//! Every transform is specified over `Seq<char>` and executed over
//! `Vec<char>`; [`chars_of`] and [`string_from_chars`] move between `String`
//! and that working representation.

use vstd::prelude::*;
use vstd::string::StrSliceExecFns;

verus! {

/// Whitespace as the line format understands it: the ASCII blank characters.
pub open spec fn is_blank(c: char) -> bool {
    c == ' ' || c == '\t' || c == '\n' || c == '\r' || c == '\u{b}' || c == '\u{c}'
}

/// Decides [`is_blank`].
pub fn blank(c: char) -> (r: bool)
    ensures
        r == is_blank(c),
{
    c == ' ' || c == '\t' || c == '\n' || c == '\r' || c == '\u{b}' || c == '\u{c}'
}

/// The characters of a string, in order.
pub fn chars_of(s: &str) -> (r: Vec<char>)
    ensures
        r@ == s@,
{
    let n = s.unicode_len();
    let mut r: Vec<char> = Vec::new();
    let mut i: usize = 0;
    while i < n
        invariant
            i <= n,
            n == s@.len(),
            r@ == s@.take(i as int),
        decreases n - i,
    {
        let c = s.get_char(i);
        r.push(c);
        i = i + 1;
        proof {
            assert(r@ =~= s@.take(i as int));
        }
    }
    proof {
        assert(s@.take(n as int) =~= s@);
    }
    r
}

/// The characters of `v` from position `start` on.
pub fn skip_chars(v: &Vec<char>, start: usize) -> (r: Vec<char>)
    requires
        start <= v@.len(),
    ensures
        r@ == v@.skip(start as int),
{
    let mut r: Vec<char> = Vec::new();
    let mut i: usize = start;
    while i < v.len()
        invariant
            start <= i <= v@.len(),
            r@ == v@.subrange(start as int, i as int),
        decreases v@.len() - i,
    {
        r.push(v[i]);
        i = i + 1;
        proof {
            assert(r@ =~= v@.subrange(start as int, i as int));
        }
    }
    proof {
        assert(v@.subrange(start as int, v@.len() as int) =~= v@.skip(start as int));
    }
    r
}

/// Relies on `String: FromIterator<char>`: collecting characters yields the
/// string whose characters they are, in order.
#[verifier::external_body]
pub fn string_from_chars(v: &Vec<char>) -> (r: String)
    ensures
        r@ == v@,
{
    v.iter().collect()
}

/// Whether two string slices hold the same characters.
pub fn str_eq(a: &str, b: &str) -> (r: bool)
    ensures
        r == (a@ == b@),
{
    let na = a.unicode_len();
    let nb = b.unicode_len();
    if na != nb {
        return false;
    }
    let mut i: usize = 0;
    while i < na
        invariant
            i <= na,
            na == a@.len(),
            na == b@.len(),
            forall|j: int| 0 <= j < i ==> a@[j] == b@[j],
        decreases na - i,
    {
        if a.get_char(i) != b.get_char(i) {
            return false;
        }
        i = i + 1;
    }
    proof {
        assert(a@ =~= b@);
    }
    true
}

/// `s` with every occurrence of the two-character pattern `p0 p1` replaced by
/// `rep`, scanning left to right without overlap.
pub open spec fn replace_pair_spec(s: Seq<char>, p0: char, p1: char, rep: Seq<char>) -> Seq<char>
    decreases s.len(),
{
    if s.len() == 0 {
        Seq::empty()
    } else if s.len() >= 2 && s[0] == p0 && s[1] == p1 {
        rep + replace_pair_spec(s.skip(2), p0, p1, rep)
    } else {
        seq![s[0]] + replace_pair_spec(s.skip(1), p0, p1, rep)
    }
}

/// Computes [`replace_pair_spec`].
pub fn replace_pair(v: &Vec<char>, p0: char, p1: char, rep: &Vec<char>) -> (r: Vec<char>)
    ensures
        r@ == replace_pair_spec(v@, p0, p1, rep@),
{
    let mut r: Vec<char> = Vec::new();
    let mut i: usize = 0;
    proof {
        assert(v@.skip(0) =~= v@);
        assert(Seq::<char>::empty() + replace_pair_spec(v@, p0, p1, rep@) =~= replace_pair_spec(
            v@,
            p0,
            p1,
            rep@,
        ));
    }
    while i < v.len()
        invariant
            i <= v@.len(),
            replace_pair_spec(v@, p0, p1, rep@) == r@ + replace_pair_spec(
                v@.skip(i as int),
                p0,
                p1,
                rep@,
            ),
        decreases v@.len() - i,
    {
        let ghost prev = r@;
        if v[i] == p0 && i + 1 < v.len() && v[i + 1] == p1 {
            let mut j: usize = 0;
            while j < rep.len()
                invariant
                    j <= rep@.len(),
                    r@ == prev + rep@.take(j as int),
                decreases rep@.len() - j,
            {
                r.push(rep[j]);
                j = j + 1;
                proof {
                    assert(r@ =~= prev + rep@.take(j as int));
                }
            }
            proof {
                assert(rep@.take(rep@.len() as int) =~= rep@);
                assert(v@.skip(i as int).skip(2) =~= v@.skip(i as int + 2));
                assert(prev + (rep@ + replace_pair_spec(v@.skip(i as int + 2), p0, p1, rep@))
                    =~= (prev + rep@) + replace_pair_spec(v@.skip(i as int + 2), p0, p1, rep@));
            }
            i = i + 2;
        } else {
            r.push(v[i]);
            i = i + 1;
            proof {
                assert(v@.skip(i - 1).skip(1) =~= v@.skip(i as int));
                assert(prev + (seq![v@[i - 1]] + replace_pair_spec(v@.skip(i as int), p0, p1, rep@))
                    =~= r@ + replace_pair_spec(v@.skip(i as int), p0, p1, rep@));
            }
        }
    }
    proof {
        assert(v@.skip(v@.len() as int) =~= Seq::<char>::empty());
        assert(r@ + Seq::<char>::empty() =~= r@);
    }
    r
}

/// `s` with every occurrence of the character `p` replaced by `rep`.
pub open spec fn replace_char_spec(s: Seq<char>, p: char, rep: Seq<char>) -> Seq<char>
    decreases s.len(),
{
    if s.len() == 0 {
        Seq::empty()
    } else if s[0] == p {
        rep + replace_char_spec(s.skip(1), p, rep)
    } else {
        seq![s[0]] + replace_char_spec(s.skip(1), p, rep)
    }
}

/// Computes [`replace_char_spec`].
pub fn replace_char(v: &Vec<char>, p: char, rep: &Vec<char>) -> (r: Vec<char>)
    ensures
        r@ == replace_char_spec(v@, p, rep@),
{
    let mut r: Vec<char> = Vec::new();
    let mut i: usize = 0;
    proof {
        assert(v@.skip(0) =~= v@);
        assert(Seq::<char>::empty() + replace_char_spec(v@, p, rep@) =~= replace_char_spec(
            v@,
            p,
            rep@,
        ));
    }
    while i < v.len()
        invariant
            i <= v@.len(),
            replace_char_spec(v@, p, rep@) == r@ + replace_char_spec(v@.skip(i as int), p, rep@),
        decreases v@.len() - i,
    {
        let ghost prev = r@;
        if v[i] == p {
            let mut j: usize = 0;
            while j < rep.len()
                invariant
                    j <= rep@.len(),
                    r@ == prev + rep@.take(j as int),
                decreases rep@.len() - j,
            {
                r.push(rep[j]);
                j = j + 1;
                proof {
                    assert(r@ =~= prev + rep@.take(j as int));
                }
            }
            proof {
                assert(rep@.take(rep@.len() as int) =~= rep@);
            }
        } else {
            r.push(v[i]);
        }
        i = i + 1;
        proof {
            assert(v@.skip(i - 1).skip(1) =~= v@.skip(i as int));
            assert(replace_char_spec(v@, p, rep@) =~= r@ + replace_char_spec(
                v@.skip(i as int),
                p,
                rep@,
            ));
        }
    }
    proof {
        assert(v@.skip(v@.len() as int) =~= Seq::<char>::empty());
        assert(r@ + Seq::<char>::empty() =~= r@);
    }
    r
}

/// `s` with one leading and one trailing `p` removed, where present.
pub open spec fn strip_edges_spec(s: Seq<char>, p: char) -> Seq<char> {
    let t = if s.len() > 0 && s[0] == p {
        s.skip(1)
    } else {
        s
    };
    if t.len() > 0 && t[t.len() - 1] == p {
        t.take(t.len() - 1)
    } else {
        t
    }
}

/// Computes [`strip_edges_spec`].
pub fn strip_edges(v: &Vec<char>, p: char) -> (r: Vec<char>)
    ensures
        r@ == strip_edges_spec(v@, p),
{
    let lo: usize = if v.len() > 0 && v[0] == p {
        1
    } else {
        0
    };
    let hi: usize = if v.len() > lo && v[v.len() - 1] == p {
        v.len() - 1
    } else {
        v.len()
    };
    let mut r: Vec<char> = Vec::new();
    let mut i: usize = lo;
    while i < hi
        invariant
            lo <= i <= hi <= v@.len(),
            r@ == v@.subrange(lo as int, i as int),
        decreases hi - i,
    {
        r.push(v[i]);
        i = i + 1;
        proof {
            assert(r@ =~= v@.subrange(lo as int, i as int));
        }
    }
    proof {
        assert(r@ =~= strip_edges_spec(v@, p));
    }
    r
}

/// Appends the characters of `src` to `dst`.
pub fn append_chars(dst: &mut Vec<char>, src: &Vec<char>)
    ensures
        final(dst)@ == old(dst)@ + src@,
{
    let mut j: usize = 0;
    while j < src.len()
        invariant
            j <= src@.len(),
            dst@ == old(dst)@ + src@.take(j as int),
        decreases src@.len() - j,
    {
        dst.push(src[j]);
        j = j + 1;
        proof {
            assert(dst@ =~= old(dst)@ + src@.take(j as int));
        }
    }
    proof {
        assert(old(dst)@ + src@.take(src@.len() as int) =~= old(dst)@ + src@);
    }
}

/// Appends the characters of a string slice to `dst`.
pub fn append_lit(dst: &mut Vec<char>, s: &str)
    ensures
        final(dst)@ == old(dst)@ + s@,
{
    let v = chars_of(s);
    append_chars(dst, &v);
}

/// The length of the leading run of non-blank characters of `s`.
pub open spec fn token_len(s: Seq<char>) -> nat
    decreases s.len(),
{
    if s.len() == 0 || is_blank(s[0]) {
        0
    } else {
        1 + token_len(s.skip(1))
    }
}

/// The leading token is never longer than the text it begins.
pub proof fn lemma_token_len_bounds(s: Seq<char>)
    ensures
        token_len(s) <= s.len(),
        s.len() > 0 && !is_blank(s[0]) ==> 1 <= token_len(s),
    decreases s.len(),
{
    if s.len() > 0 && !is_blank(s[0]) {
        lemma_token_len_bounds(s.skip(1));
    }
}

/// The leading token ends exactly at the first blank (or at the end).
pub proof fn lemma_token_len_boundary(s: Seq<char>, m: int)
    requires
        0 <= m <= s.len(),
        forall|k: int| 0 <= k < m ==> !is_blank(s[k]),
        m == s.len() || is_blank(s[m]),
    ensures
        token_len(s) == m,
    decreases m,
{
    if m == 0 {
    } else {
        lemma_token_len_boundary(s.skip(1), m - 1);
    }
}

/// The blank-separated tokens of `s`, in order.
pub open spec fn split_blanks_spec(s: Seq<char>) -> Seq<Seq<char>>
    decreases s.len(),
    via split_blanks_decreases
{
    if s.len() == 0 {
        Seq::empty()
    } else if is_blank(s[0]) {
        split_blanks_spec(s.skip(1))
    } else {
        seq![s.take(token_len(s) as int)] + split_blanks_spec(s.skip(token_len(s) as int))
    }
}

#[via_fn]
proof fn split_blanks_decreases(s: Seq<char>) {
    if s.len() > 0 && !is_blank(s[0]) {
        lemma_token_len_bounds(s);
    }
}

/// Computes [`split_blanks_spec`].
pub fn split_blanks(v: &Vec<char>) -> (r: Vec<Vec<char>>)
    ensures
        r.deep_view() == split_blanks_spec(v@),
{
    let mut r: Vec<Vec<char>> = Vec::new();
    let mut i: usize = 0;
    proof {
        assert(v@.skip(0) =~= v@);
        assert(r.deep_view() =~= Seq::<Seq<char>>::empty());
        assert(Seq::<Seq<char>>::empty() + split_blanks_spec(v@) =~= split_blanks_spec(v@));
    }
    while i < v.len()
        invariant
            i <= v@.len(),
            split_blanks_spec(v@) == r.deep_view() + split_blanks_spec(v@.skip(i as int)),
        decreases v@.len() - i,
    {
        if blank(v[i]) {
            i = i + 1;
            proof {
                assert(v@.skip(i - 1).skip(1) =~= v@.skip(i as int));
            }
        } else {
            let ghost prev = r.deep_view();
            let mut tok: Vec<char> = Vec::new();
            let mut j: usize = i;
            while j < v.len() && !blank(v[j])
                invariant
                    i <= j <= v@.len(),
                    tok@ == v@.subrange(i as int, j as int),
                    forall|k: int| i <= k < j ==> !is_blank(v@[k]),
                decreases v@.len() - j,
            {
                tok.push(v[j]);
                j = j + 1;
                proof {
                    assert(tok@ =~= v@.subrange(i as int, j as int));
                }
            }
            proof {
                let suf = v@.skip(i as int);
                assert(forall|k: int|
                    0 <= k < j - i ==> suf[k] == v@[k + i] && !is_blank(suf[k]));
                lemma_token_len_boundary(suf, j - i);
                assert(suf.take(j - i) =~= tok@);
                assert(suf.skip(j - i) =~= v@.skip(j as int));
            }
            r.push(tok);
            i = j;
            proof {
                assert(r.deep_view() =~~= prev + seq![tok@]);
                assert(prev + (seq![tok@] + split_blanks_spec(v@.skip(i as int))) =~= (prev
                    + seq![tok@]) + split_blanks_spec(v@.skip(i as int)));
            }
        }
    }
    proof {
        assert(v@.skip(v@.len() as int) =~= Seq::<char>::empty());
        assert(r.deep_view() + Seq::<Seq<char>>::empty() =~= r.deep_view());
    }
    r
}

/// The tokens joined with a single `sep` between neighbours.
pub open spec fn join_spec(ts: Seq<Seq<char>>, sep: char) -> Seq<char>
    decreases ts.len(),
{
    if ts.len() == 0 {
        Seq::empty()
    } else if ts.len() == 1 {
        ts[0]
    } else {
        ts[0] + seq![sep] + join_spec(ts.skip(1), sep)
    }
}

/// How [`join_spec`] grows when one token is appended.
pub proof fn lemma_join_push(ts: Seq<Seq<char>>, x: Seq<char>, sep: char)
    ensures
        join_spec(ts.push(x), sep) == if ts.len() == 0 {
            x
        } else {
            join_spec(ts, sep) + seq![sep] + x
        },
    decreases ts.len(),
{
    if ts.len() == 0 {
        assert(ts.push(x)[0] == x);
        assert(join_spec(ts.push(x), sep) == x);
    } else if ts.len() == 1 {
        assert(ts.push(x).skip(1) =~= seq![x]);
        assert(join_spec(seq![x], sep) == x);
    } else {
        lemma_join_push(ts.skip(1), x, sep);
        assert(ts.push(x).skip(1) =~= ts.skip(1).push(x));
        assert(ts.push(x)[0] == ts[0]);
        assert((ts[0] + seq![sep] + (join_spec(ts.skip(1), sep) + seq![sep] + x)) =~= ((ts[0]
            + seq![sep] + join_spec(ts.skip(1), sep)) + seq![sep] + x));
    }
}

/// Computes [`join_spec`].
pub fn join_with(ts: &Vec<Vec<char>>, sep: char) -> (r: Vec<char>)
    ensures
        r@ == join_spec(ts.deep_view(), sep),
{
    let mut r: Vec<char> = Vec::new();
    let mut i: usize = 0;
    proof {
        assert(ts.deep_view().take(0) =~= Seq::<Seq<char>>::empty());
    }
    while i < ts.len()
        invariant
            i <= ts@.len(),
            ts.deep_view().len() == ts@.len(),
            forall|k: int| 0 <= k < ts@.len() ==> ts.deep_view()[k] == ts@[k]@,
            r@ == join_spec(ts.deep_view().take(i as int), sep),
        decreases ts@.len() - i,
    {
        if i > 0 {
            r.push(sep);
        }
        append_chars(&mut r, &ts[i]);
        i = i + 1;
        proof {
            let d = ts.deep_view();
            assert(d.take(i as int) =~= d.take(i - 1).push(d[i - 1]));
            lemma_join_push(d.take(i - 1), d[i - 1], sep);
            if i - 1 == 0 {
                assert(r@ =~= d[i - 1]);
            } else {
                assert(r@ =~= join_spec(d.take(i - 1), sep) + seq![sep] + d[i - 1]);
            }
        }
    }
    proof {
        assert(ts.deep_view().take(ts@.len() as int) =~= ts.deep_view());
    }
    r
}

/// Whether two characters are equal up to ASCII letter case.
pub open spec fn eq_ci(a: char, b: char) -> bool {
    a == b || (65 <= a as u32 <= 90 && b as u32 == a as u32 + 32) || (65 <= b as u32 <= 90
        && a as u32 == b as u32 + 32)
}

/// Decides [`eq_ci`].
pub fn char_eq_ci(a: char, b: char) -> (r: bool)
    ensures
        r == eq_ci(a, b),
{
    if a == b {
        true
    } else {
        let x = a as u32;
        let y = b as u32;
        (65 <= x && x <= 90 && y == x + 32) || (65 <= y && y <= 90 && x == y + 32)
    }
}

/// The header keyword of the line format, followed by one space.
pub open spec fn header_pat() -> Seq<char> {
    seq!['s', 'n', 'i', 'p', 'p', 'e', 't', ' ']
}

/// Whether the header keyword occurs at position `i` of `s`, up to case.
pub open spec fn matches_header_at(s: Seq<char>, i: int) -> bool {
    &&& 0 <= i
    &&& i + 8 <= s.len()
    &&& forall|j: int| 0 <= j < 8 ==> eq_ci(s[i + j], header_pat()[j])
}

/// Whether `s` contains the header keyword anywhere, up to case.
pub open spec fn is_header_line(s: Seq<char>) -> bool {
    exists|i: int| matches_header_at(s, i)
}

/// The character at position `j` of the header keyword.
fn header_pat_char(j: usize) -> (c: char)
    requires
        j < 8,
    ensures
        c == header_pat()[j as int],
{
    if j == 0 {
        's'
    } else if j == 1 {
        'n'
    } else if j == 2 {
        'i'
    } else if j == 3 {
        'p'
    } else if j == 4 {
        'p'
    } else if j == 5 {
        'e'
    } else if j == 6 {
        't'
    } else {
        ' '
    }
}

/// Whether the header keyword occurs at position `i` of `v`, up to case.
fn matches_header(v: &Vec<char>, i: usize) -> (r: bool)
    requires
        i <= v@.len() - 8,
        8 <= v@.len(),
    ensures
        r == matches_header_at(v@, i as int),
{
    let n = v.len();
    let mut j: usize = 0;
    while j < 8
        invariant
            j <= 8,
            i <= n - 8,
            8 <= n,
            n == v@.len(),
            forall|m: int| 0 <= m < j ==> eq_ci(v@[i + m], header_pat()[m]),
        decreases 8 - j,
    {
        if !char_eq_ci(v[i + j], header_pat_char(j)) {
            return false;
        }
        j = j + 1;
    }
    true
}

/// The first position at or after `i` at which the header keyword occurs.
pub open spec fn header_scan(s: Seq<char>, i: int) -> Option<int>
    decreases s.len() - i
        when 0 <= i
{
    if i + 8 > s.len() {
        None
    } else if matches_header_at(s, i) {
        Some(i)
    } else {
        header_scan(s, i + 1)
    }
}

/// What the scan finds: the first match at or after `i`, when there is one.
pub proof fn lemma_header_scan(s: Seq<char>, i: int)
    requires
        0 <= i,
    ensures
        match header_scan(s, i) {
            Some(p) => i <= p && matches_header_at(s, p) && (forall|j: int|
                i <= j < p ==> !matches_header_at(s, j)),
            None => forall|j: int| i <= j ==> !matches_header_at(s, j),
        },
    decreases s.len() - i,
{
    if i + 8 > s.len() {
        assert(forall|j: int| i <= j ==> !matches_header_at(s, j));
    } else if matches_header_at(s, i) {
    } else {
        lemma_header_scan(s, i + 1);
    }
}

/// The scan from the start finds a match exactly when the line is a header.
pub proof fn lemma_header_scan_is_header(s: Seq<char>)
    ensures
        (header_scan(s, 0) is Some) == is_header_line(s),
{
    lemma_header_scan(s, 0);
    if is_header_line(s) {
        let w = choose|i: int| matches_header_at(s, i);
        if header_scan(s, 0) is None {
            assert(!matches_header_at(s, w));
            assert(false);
        }
    }
}

/// Finds the first position of the header keyword, when the line is a
/// header.
pub fn find_header(v: &Vec<char>) -> (r: Option<usize>)
    ensures
        r matches Some(p) ==> header_scan(v@, 0) == Some(p as int),
        (r is Some) == is_header_line(v@),
{
    proof {
        lemma_header_scan_is_header(v@);
    }
    if v.len() < 8 {
        proof {
            assert(header_scan(v@, 0) is None);
        }
        return None;
    }
    let n = v.len();
    let mut i: usize = 0;
    while i <= n - 8
        invariant
            8 <= n,
            n == v@.len(),
            i <= n - 8 + 1,
            forall|k: int| 0 <= k < i ==> !matches_header_at(v@, k),
        decreases n - i,
    {
        if matches_header(v, i) {
            proof {
                lemma_header_scan(v@, 0);
                lemma_header_scan_is_header(v@);
                match header_scan(v@, 0) {
                    Some(p) => {
                        if p < i {
                            assert(!matches_header_at(v@, p));
                            assert(false);
                        }
                        if p > i {
                            assert(!matches_header_at(v@, i as int));
                            assert(false);
                        }
                    },
                    None => {
                        assert(!matches_header_at(v@, i as int));
                        assert(false);
                    },
                }
                assert(is_header_line(v@));
            }
            return Some(i);
        }
        i = i + 1;
    }
    proof {
        assert(forall|k: int| matches_header_at(v@, k) ==> 0 <= k < i);
        lemma_header_scan(v@, 0);
        lemma_header_scan_is_header(v@);
        match header_scan(v@, 0) {
            Some(p) => {
                assert(matches_header_at(v@, p));
                assert(false);
            },
            None => {},
        }
    }
    None
}

/// `s` without its leading blanks.
pub open spec fn trim_start_spec(s: Seq<char>) -> Seq<char>
    decreases s.len(),
{
    if s.len() > 0 && is_blank(s[0]) {
        trim_start_spec(s.skip(1))
    } else {
        s
    }
}

/// Computes [`trim_start_spec`].
pub fn trim_start(v: &Vec<char>) -> (r: Vec<char>)
    ensures
        r@ == trim_start_spec(v@),
{
    let mut lo: usize = 0;
    proof {
        assert(v@.skip(0) =~= v@);
    }
    while lo < v.len() && blank(v[lo])
        invariant
            lo <= v@.len(),
            trim_start_spec(v@) == trim_start_spec(v@.skip(lo as int)),
            forall|j: int| 0 <= j < lo ==> is_blank(v@[j]),
        decreases v@.len() - lo,
    {
        lo = lo + 1;
        proof {
            assert(v@.skip(lo - 1).skip(1) =~= v@.skip(lo as int));
        }
    }
    let mut r: Vec<char> = Vec::new();
    let mut i: usize = lo;
    while i < v.len()
        invariant
            lo <= i <= v@.len(),
            r@ == v@.subrange(lo as int, i as int),
        decreases v@.len() - i,
    {
        r.push(v[i]);
        i = i + 1;
        proof {
            assert(r@ =~= v@.subrange(lo as int, i as int));
        }
    }
    proof {
        assert(v@.skip(lo as int) =~= v@.subrange(lo as int, v@.len() as int));
        assert(r@ =~= trim_start_spec(v@));
    }
    r
}

} // verus!

verus! {

/// Replacing a pair whose first character never occurs changes nothing.
pub proof fn lemma_replace_pair_absent(s: Seq<char>, p0: char, p1: char, rep: Seq<char>)
    requires
        forall|i: int| 0 <= i < s.len() ==> s[i] != p0,
    ensures
        replace_pair_spec(s, p0, p1, rep) == s,
    decreases s.len(),
{
    if s.len() == 0 {
        assert(replace_pair_spec(s, p0, p1, rep) =~= s);
    } else {
        assert forall|i: int| 0 <= i < s.skip(1).len() implies s.skip(1)[i] != p0 by {
            assert(s.skip(1)[i] == s[i + 1]);
        }
        lemma_replace_pair_absent(s.skip(1), p0, p1, rep);
        assert(seq![s[0]] + s.skip(1) =~= s);
    }
}

/// Replacing a character that never occurs changes nothing.
pub proof fn lemma_replace_char_absent(s: Seq<char>, p: char, rep: Seq<char>)
    requires
        forall|i: int| 0 <= i < s.len() ==> s[i] != p,
    ensures
        replace_char_spec(s, p, rep) == s,
    decreases s.len(),
{
    if s.len() == 0 {
        assert(replace_char_spec(s, p, rep) =~= s);
    } else {
        assert forall|i: int| 0 <= i < s.skip(1).len() implies s.skip(1)[i] != p by {
            assert(s.skip(1)[i] == s[i + 1]);
        }
        lemma_replace_char_absent(s.skip(1), p, rep);
        assert(seq![s[0]] + s.skip(1) =~= s);
    }
}

/// Stripping a character that never occurs changes nothing.
pub proof fn lemma_strip_edges_absent(s: Seq<char>, p: char)
    requires
        forall|i: int| 0 <= i < s.len() ==> s[i] != p,
    ensures
        strip_edges_spec(s, p) == s,
{
}

/// A text that does not start with a blank keeps itself under trimming.
pub proof fn lemma_trim_start_noblank(s: Seq<char>)
    requires
        s.len() == 0 || !is_blank(s[0]),
    ensures
        trim_start_spec(s) == s,
{
}

} // verus!
