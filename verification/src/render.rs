//! The serializer: renders snippet tables as JSON text, keys in
//! case-insensitive sorted order, with the same string escaping, field
//! order and two-space indentation that the tables were read from.

use vstd::prelude::*;
use vstd::string::StrSliceExecFns;

use crate::errors::TektonError;
use crate::friendly::FriendlyBodyView;
use crate::friendly::FriendlySnippetBody;
use crate::friendly::FriendlySnippets;
use crate::sorting::sort_entries;
use crate::sorting::sort_entries_spec;
use crate::text::append_lit;
use crate::text::chars_of;
use crate::text::string_from_chars;
use vstd::string::StringExecFns;

verus! {

/// The lowercase hexadecimal digit for `n`.
pub open spec fn hex_digit_spec(n: u32) -> char {
    if n == 0 {
        '0'
    } else if n == 1 {
        '1'
    } else if n == 2 {
        '2'
    } else if n == 3 {
        '3'
    } else if n == 4 {
        '4'
    } else if n == 5 {
        '5'
    } else if n == 6 {
        '6'
    } else if n == 7 {
        '7'
    } else if n == 8 {
        '8'
    } else if n == 9 {
        '9'
    } else if n == 10 {
        'a'
    } else if n == 11 {
        'b'
    } else if n == 12 {
        'c'
    } else if n == 13 {
        'd'
    } else if n == 14 {
        'e'
    } else {
        'f'
    }
}

/// Computes [`hex_digit_spec`].
fn hex_digit(n: u32) -> (c: char)
    requires
        n < 16,
    ensures
        c == hex_digit_spec(n),
{
    if n == 0 {
        '0'
    } else if n == 1 {
        '1'
    } else if n == 2 {
        '2'
    } else if n == 3 {
        '3'
    } else if n == 4 {
        '4'
    } else if n == 5 {
        '5'
    } else if n == 6 {
        '6'
    } else if n == 7 {
        '7'
    } else if n == 8 {
        '8'
    } else if n == 9 {
        '9'
    } else if n == 10 {
        'a'
    } else if n == 11 {
        'b'
    } else if n == 12 {
        'c'
    } else if n == 13 {
        'd'
    } else if n == 14 {
        'e'
    } else {
        'f'
    }
}

/// The JSON escape of one character: quote and backslash get a backslash,
/// the named control characters their short escapes, any other control
/// character a `\u00..` escape, and everything else stands as itself.
pub open spec fn escape_char_spec(c: char) -> Seq<char> {
    if c == '"' {
        seq!['\\', '"']
    } else if c == '\\' {
        seq!['\\', '\\']
    } else if c == '\u{8}' {
        seq!['\\', 'b']
    } else if c == '\u{c}' {
        seq!['\\', 'f']
    } else if c == '\n' {
        seq!['\\', 'n']
    } else if c == '\r' {
        seq!['\\', 'r']
    } else if c == '\t' {
        seq!['\\', 't']
    } else if (c as u32) < 0x20 {
        seq!['\\', 'u', '0', '0', hex_digit_spec((c as u32) / 16), hex_digit_spec((c as u32) % 16)]
    } else {
        seq![c]
    }
}

/// The JSON escape of a whole string, character by character.
pub open spec fn escape_str_spec(s: Seq<char>) -> Seq<char>
    decreases s.len(),
{
    if s.len() == 0 {
        Seq::empty()
    } else {
        escape_char_spec(s[0]) + escape_str_spec(s.skip(1))
    }
}

/// A string as a JSON string literal: quoted and escaped.
pub open spec fn quoted_spec(s: Seq<char>) -> Seq<char> {
    seq!['"'] + escape_str_spec(s) + seq!['"']
}

/// Appends the escaped characters of `s` to `buf`.
fn append_escaped(buf: &mut Vec<char>, s: &Vec<char>)
    ensures
        final(buf)@ == old(buf)@ + escape_str_spec(s@),
{
    let mut i: usize = 0;
    proof {
        assert(s@.skip(0) =~= s@);
        assert(old(buf)@ + Seq::<char>::empty() =~= old(buf)@);
    }
    while i < s.len()
        invariant
            i <= s@.len(),
            old(buf)@ + escape_str_spec(s@) == buf@ + escape_str_spec(s@.skip(i as int)),
        decreases s@.len() - i,
    {
        let ghost prev = buf@;
        let c = s[i];
        if c == '"' {
            buf.push('\\');
            buf.push('"');
        } else if c == '\\' {
            buf.push('\\');
            buf.push('\\');
        } else if c == '\u{8}' {
            buf.push('\\');
            buf.push('b');
        } else if c == '\u{c}' {
            buf.push('\\');
            buf.push('f');
        } else if c == '\n' {
            buf.push('\\');
            buf.push('n');
        } else if c == '\r' {
            buf.push('\\');
            buf.push('r');
        } else if c == '\t' {
            buf.push('\\');
            buf.push('t');
        } else if (c as u32) < 0x20 {
            buf.push('\\');
            buf.push('u');
            buf.push('0');
            buf.push('0');
            buf.push(hex_digit((c as u32) / 16));
            buf.push(hex_digit((c as u32) % 16));
        } else {
            buf.push(c);
        }
        i = i + 1;
        proof {
            assert(buf@ =~= prev + escape_char_spec(s@[i - 1]));
            assert(s@.skip(i - 1).skip(1) =~= s@.skip(i as int));
            assert(prev + (escape_char_spec(s@[i - 1]) + escape_str_spec(s@.skip(i as int))) =~= (
            prev + escape_char_spec(s@[i - 1])) + escape_str_spec(s@.skip(i as int)));
        }
    }
    proof {
        assert(s@.skip(s@.len() as int) =~= Seq::<char>::empty());
        assert(buf@ + Seq::<char>::empty() =~= buf@);
    }
}

/// Appends `s` as a JSON string literal to `buf`.
pub(crate) fn append_quoted(buf: &mut Vec<char>, s: &str)
    ensures
        final(buf)@ == old(buf)@ + quoted_spec(s@),
{
    buf.push('"');
    let v = chars_of(s);
    append_escaped(buf, &v);
    buf.push('"');
    proof {
        assert(buf@ =~= old(buf)@ + quoted_spec(s@));
    }
}

/// The elements of a pretty array after the first: each behind a comma, a
/// line break and its indentation.
pub open spec fn arr_rest_spec(lines: Seq<Seq<char>>, pad: Seq<char>) -> Seq<char>
    decreases lines.len(),
{
    if lines.len() == 0 {
        Seq::empty()
    } else {
        seq![',', '\n'] + pad + quoted_spec(lines[0]) + arr_rest_spec(lines.skip(1), pad)
    }
}

/// A JSON array of strings, pretty-printed: each element on its own line at
/// `pad`, the closing bracket at `close_pad`; an empty array stays on one
/// line.
pub open spec fn pretty_str_array_spec(
    lines: Seq<Seq<char>>,
    pad: Seq<char>,
    close_pad: Seq<char>,
) -> Seq<char> {
    if lines.len() == 0 {
        seq!['[', ']']
    } else {
        seq!['[', '\n'] + pad + quoted_spec(lines[0]) + arr_rest_spec(lines.skip(1), pad)
            + seq!['\n'] + close_pad + seq![']']
    }
}

/// Appends a pretty-printed JSON array of the strings to `buf`.
pub(crate) fn append_pretty_str_array(buf: &mut Vec<char>, lines: &Vec<String>, pad: &str, close_pad: &str)
    ensures
        final(buf)@ == old(buf)@ + pretty_str_array_spec(lines.deep_view(), pad@, close_pad@),
{
    let ghost lv = lines.deep_view();
    if lines.len() == 0 {
        buf.push('[');
        buf.push(']');
        proof {
            assert(buf@ =~= old(buf)@ + pretty_str_array_spec(lv, pad@, close_pad@));
        }
        return ;
    }
    buf.push('[');
    buf.push('\n');
    append_lit(buf, pad);
    append_quoted(buf, lines[0].as_str());
    proof {
        assert(lv[0] == lines@[0]@);
        assert(buf@ =~= old(buf)@ + (seq!['[', '\n'] + pad@ + quoted_spec(lv[0])));
    }
    let ghost head = buf@;
    let mut i: usize = 1;
    proof {
        assert(lv.skip(1).skip(0) =~= lv.skip(1));
        assert(head + Seq::<char>::empty() =~= head);
    }
    while i < lines.len()
        invariant
            1 <= i <= lines@.len(),
            lv == lines.deep_view(),
            lv.len() == lines@.len(),
            forall|k: int| 0 <= k < lv.len() ==> lv[k] == lines@[k]@,
            head + arr_rest_spec(lv.skip(1), pad@) == buf@ + arr_rest_spec(
                lv.skip(i as int),
                pad@,
            ),
        decreases lines@.len() - i,
    {
        let ghost prev = buf@;
        buf.push(',');
        buf.push('\n');
        append_lit(buf, pad);
        append_quoted(buf, lines[i].as_str());
        i = i + 1;
        proof {
            assert(buf@ =~= prev + (seq![',', '\n'] + pad@ + quoted_spec(lv[i - 1])));
            assert(lv.skip(i - 1).skip(1) =~= lv.skip(i as int));
            assert(prev + (seq![',', '\n'] + pad@ + quoted_spec(lv[i - 1]) + arr_rest_spec(
                lv.skip(i as int),
                pad@,
            )) =~= buf@ + arr_rest_spec(lv.skip(i as int), pad@));
        }
    }
    buf.push('\n');
    append_lit(buf, close_pad);
    buf.push(']');
    proof {
        assert(lv.skip(lv.len() as int) =~= Seq::<Seq<char>>::empty());
        assert(buf@ =~= old(buf)@ + pretty_str_array_spec(lv, pad@, close_pad@));
    }
}

/// A friendly record as a pretty-printed JSON object: an optional `prefix`
/// string, the `body` array, an optional `description` string, fields at
/// `pad`, the closing brace at `close_pad`.
pub open spec fn pretty_body_spec(
    b: FriendlyBodyView,
    pad: Seq<char>,
    close_pad: Seq<char>,
) -> Seq<char> {
    let body_field = "\"body\": "@ + pretty_str_array_spec(b.body, pad + "  "@, pad);
    let head = match b.prefix {
        Some(p) => seq!['\n'] + pad + "\"prefix\": "@ + quoted_spec(p) + seq![',', '\n'] + pad
            + body_field,
        None => seq!['\n'] + pad + body_field,
    };
    let fields = match b.description {
        Some(d) => head + seq![',', '\n'] + pad + "\"description\": "@ + quoted_spec(d),
        None => head,
    };
    seq!['{'] + fields + seq!['\n'] + close_pad + seq!['}']
}

/// Appends a pretty-printed friendly record to `buf`.
#[verifier::rlimit(100)]
fn append_pretty_body(
    buf: &mut Vec<char>,
    b: &FriendlySnippetBody,
    pad: &str,
    inner_pad: &str,
    close_pad: &str,
)
    requires
        inner_pad@ == pad@ + "  "@,
    ensures
        final(buf)@ == old(buf)@ + pretty_body_spec(b@, pad@, close_pad@),
{
    let ghost start = old(buf)@;
    let ghost head_start: Seq<char> = match b@.prefix {
        Some(p) => seq!['{', '\n'] + pad@ + "\"prefix\": "@ + quoted_spec(p) + seq![',', '\n']
            + pad@,
        None => seq!['{', '\n'] + pad@,
    };
    buf.push('{');
    buf.push('\n');
    append_lit(buf, pad);
    match &b.prefix {
        Some(p) => {
            append_lit(buf, "\"prefix\": ");
            append_quoted(buf, p.as_str());
            buf.push(',');
            buf.push('\n');
            append_lit(buf, pad);
            proof {
                assert(buf@ =~= start + head_start);
            }
        },
        None => {
            proof {
                assert(buf@ =~= start + head_start);
            }
        },
    }
    append_lit(buf, "\"body\": ");
    append_pretty_str_array(buf, &b.body, inner_pad, pad);
    let ghost with_body = start + head_start + "\"body\": "@ + pretty_str_array_spec(
        b@.body,
        pad@ + "  "@,
        pad@,
    );
    proof {
        assert(buf@ =~= with_body);
    }
    match &b.description {
        Some(d) => {
            buf.push(',');
            buf.push('\n');
            append_lit(buf, pad);
            append_lit(buf, "\"description\": ");
            append_quoted(buf, d.as_str());
            proof {
                assert(buf@ =~= with_body + seq![',', '\n'] + pad@ + "\"description\": "@
                    + quoted_spec(b@.description->0));
            }
        },
        None => {},
    }
    let ghost with_desc = buf@;
    buf.push('\n');
    append_lit(buf, close_pad);
    buf.push('}');
    proof {
        assert(buf@ =~= with_desc + seq!['\n'] + close_pad@ + seq!['}']);
        assert(buf@ =~= start + pretty_body_spec(b@, pad@, close_pad@));
    }
}

/// Renders one friendly record as pretty JSON on its own, fields indented by
/// two spaces — the form a record is shown in when a user is asked to name
/// or fix it.
pub fn render_body_pretty(b: &FriendlySnippetBody) -> (r: String)
    ensures
        r@ == pretty_body_spec(b@, "  "@, ""@),
{
    proof {
        reveal_strlit("  ");
        reveal_strlit("    ");
        assert("    "@ =~= "  "@ + "  "@);
    }
    let mut buf: Vec<char> = Vec::new();
    append_pretty_body(&mut buf, b, "  ", "    ", "");
    proof {
        assert(buf@ =~= pretty_body_spec(b@, "  "@, ""@));
    }
    string_from_chars(&buf)
}

/// The elements of a compact array after the first, each behind a comma.
pub open spec fn compact_arr_rest_spec(lines: Seq<Seq<char>>) -> Seq<char>
    decreases lines.len(),
{
    if lines.len() == 0 {
        Seq::empty()
    } else {
        seq![','] + quoted_spec(lines[0]) + compact_arr_rest_spec(lines.skip(1))
    }
}

/// A JSON array of strings with no whitespace.
pub open spec fn compact_str_array_spec(lines: Seq<Seq<char>>) -> Seq<char> {
    if lines.len() == 0 {
        seq!['[', ']']
    } else {
        seq!['['] + quoted_spec(lines[0]) + compact_arr_rest_spec(lines.skip(1)) + seq![']']
    }
}

/// Appends a compact JSON array of the strings to `buf`.
fn append_compact_str_array(buf: &mut Vec<char>, lines: &Vec<String>)
    ensures
        final(buf)@ == old(buf)@ + compact_str_array_spec(lines.deep_view()),
{
    let ghost lv = lines.deep_view();
    if lines.len() == 0 {
        buf.push('[');
        buf.push(']');
        proof {
            assert(buf@ =~= old(buf)@ + compact_str_array_spec(lv));
        }
        return ;
    }
    buf.push('[');
    append_quoted(buf, lines[0].as_str());
    proof {
        assert(lv[0] == lines@[0]@);
        assert(buf@ =~= old(buf)@ + (seq!['['] + quoted_spec(lv[0])));
    }
    let ghost head = buf@;
    let mut i: usize = 1;
    proof {
        assert(lv.skip(1).skip(0) =~= lv.skip(1));
        assert(head + Seq::<char>::empty() =~= head);
    }
    while i < lines.len()
        invariant
            1 <= i <= lines@.len(),
            lv == lines.deep_view(),
            lv.len() == lines@.len(),
            forall|k: int| 0 <= k < lv.len() ==> lv[k] == lines@[k]@,
            head + compact_arr_rest_spec(lv.skip(1)) == buf@ + compact_arr_rest_spec(
                lv.skip(i as int),
            ),
        decreases lines@.len() - i,
    {
        let ghost prev = buf@;
        buf.push(',');
        append_quoted(buf, lines[i].as_str());
        i = i + 1;
        proof {
            assert(buf@ =~= prev + (seq![','] + quoted_spec(lv[i - 1])));
            assert(lv.skip(i - 1).skip(1) =~= lv.skip(i as int));
            assert(prev + (seq![','] + quoted_spec(lv[i - 1]) + compact_arr_rest_spec(
                lv.skip(i as int),
            )) =~= buf@ + compact_arr_rest_spec(lv.skip(i as int)));
        }
    }
    buf.push(']');
    proof {
        assert(lv.skip(lv.len() as int) =~= Seq::<Seq<char>>::empty());
        assert(buf@ =~= old(buf)@ + compact_str_array_spec(lv));
    }
}

/// A friendly record as one compact JSON object.
pub open spec fn compact_body_spec(b: FriendlyBodyView) -> Seq<char> {
    let head = match b.prefix {
        Some(p) => "\"prefix\":"@ + quoted_spec(p) + seq![','],
        None => Seq::<char>::empty(),
    };
    let tail = match b.description {
        Some(d) => seq![','] + "\"description\":"@ + quoted_spec(d),
        None => Seq::<char>::empty(),
    };
    seq!['{'] + head + "\"body\":"@ + compact_str_array_spec(b.body) + tail + seq!['}']
}

/// Appends a compact friendly record to `buf`.
fn append_compact_body(buf: &mut Vec<char>, b: &FriendlySnippetBody)
    ensures
        final(buf)@ == old(buf)@ + compact_body_spec(b@),
{
    let ghost start = old(buf)@;
    buf.push('{');
    match &b.prefix {
        Some(p) => {
            append_lit(buf, "\"prefix\":");
            append_quoted(buf, p.as_str());
            buf.push(',');
        },
        None => {},
    }
    append_lit(buf, "\"body\":");
    append_compact_str_array(buf, &b.body);
    match &b.description {
        Some(d) => {
            buf.push(',');
            append_lit(buf, "\"description\":");
            append_quoted(buf, d.as_str());
        },
        None => {},
    }
    buf.push('}');
    proof {
        assert(buf@ =~= start + compact_body_spec(b@));
    }
}

/// The entries of a compact table after the first, each behind a comma.
pub open spec fn compact_table_rest_spec(entries: Seq<(Seq<char>, FriendlyBodyView)>) -> Seq<char>
    decreases entries.len(),
{
    if entries.len() == 0 {
        Seq::empty()
    } else {
        seq![','] + quoted_spec(entries[0].0) + seq![':'] + compact_body_spec(entries[0].1)
            + compact_table_rest_spec(entries.skip(1))
    }
}

/// A whole snippet table as one compact JSON object, entries in the order
/// given.
pub open spec fn compact_table_spec(entries: Seq<(Seq<char>, FriendlyBodyView)>) -> Seq<char> {
    if entries.len() == 0 {
        seq!['{', '}']
    } else {
        seq!['{'] + quoted_spec(entries[0].0) + seq![':'] + compact_body_spec(entries[0].1)
            + compact_table_rest_spec(entries.skip(1)) + seq!['}']
    }
}

/// Renders a snippet table as one compact JSON object, entries in insertion
/// order.
pub fn to_json_string(snippets: &FriendlySnippets) -> (r: String)
    ensures
        r@ == compact_table_spec(snippets@),
{
    let ghost tv = snippets@;
    let mut buf: Vec<char> = Vec::new();
    let n = snippets.snippets.len();
    if n == 0 {
        buf.push('{');
        buf.push('}');
        proof {
            assert(buf@ =~= compact_table_spec(tv));
        }
        return string_from_chars(&buf);
    }
    buf.push('{');
    let first = snippets.snippets.entry_at(0);
    append_quoted(&mut buf, first.0.as_str());
    buf.push(':');
    append_compact_body(&mut buf, &first.1);
    proof {
        assert(buf@ =~= seq!['{'] + quoted_spec(tv[0].0) + seq![':'] + compact_body_spec(tv[0].1));
    }
    let ghost head = buf@;
    let mut i: usize = 1;
    proof {
        assert(tv.skip(1).skip(0) =~= tv.skip(1));
        assert(head + Seq::<char>::empty() =~= head);
    }
    while i < n
        invariant
            1 <= i <= tv.len(),
            n == tv.len(),
            tv == snippets@,
            head + compact_table_rest_spec(tv.skip(1)) == buf@ + compact_table_rest_spec(
                tv.skip(i as int),
            ),
        decreases tv.len() - i,
    {
        let ghost prev = buf@;
        let e = snippets.snippets.entry_at(i);
        buf.push(',');
        append_quoted(&mut buf, e.0.as_str());
        buf.push(':');
        append_compact_body(&mut buf, &e.1);
        i = i + 1;
        proof {
            assert(buf@ =~= prev + (seq![','] + quoted_spec(tv[i - 1].0) + seq![':']
                + compact_body_spec(tv[i - 1].1)));
            assert(tv.skip(i - 1).skip(1) =~= tv.skip(i as int));
            assert(prev + (seq![','] + quoted_spec(tv[i - 1].0) + seq![':'] + compact_body_spec(
                tv[i - 1].1,
            ) + compact_table_rest_spec(tv.skip(i as int))) =~= buf@ + compact_table_rest_spec(
                tv.skip(i as int),
            ));
        }
    }
    buf.push('}');
    proof {
        assert(tv.skip(tv.len() as int) =~= Seq::<(Seq<char>, FriendlyBodyView)>::empty());
        assert(buf@ =~= compact_table_spec(tv));
    }
    string_from_chars(&buf)
}

/// The entries of a pretty table after the first: each behind a comma, a
/// line break and two spaces of indentation.
pub open spec fn table_rest_spec(entries: Seq<(Seq<char>, FriendlyBodyView)>) -> Seq<char>
    decreases entries.len(),
{
    if entries.len() == 0 {
        Seq::empty()
    } else {
        seq![',', '\n'] + "  "@ + quoted_spec(entries[0].0) + ": "@ + pretty_body_spec(
            entries[0].1,
            "    "@,
            "  "@,
        ) + table_rest_spec(entries.skip(1))
    }
}

/// A whole snippet table as one pretty-printed JSON object, entries in the
/// order given.
pub open spec fn pretty_table_spec(entries: Seq<(Seq<char>, FriendlyBodyView)>) -> Seq<char> {
    if entries.len() == 0 {
        seq!['{', '}']
    } else {
        seq!['{', '\n'] + "  "@ + quoted_spec(entries[0].0) + ": "@ + pretty_body_spec(
            entries[0].1,
            "    "@,
            "  "@,
        ) + table_rest_spec(entries.skip(1)) + seq!['\n', '}']
    }
}

/// Renders owned table entries as one pretty-printed JSON object, in the
/// order given.
fn render_table_entries(entries: &Vec<(String, FriendlySnippetBody)>) -> (r: String)
    ensures
        r@ == pretty_table_spec(crate::sorting::entry_views(entries@)),
{
    let ghost ev = crate::sorting::entry_views(entries@);
    let mut buf: Vec<char> = Vec::new();
    if entries.len() == 0 {
        buf.push('{');
        buf.push('}');
        proof {
            assert(buf@ =~= pretty_table_spec(ev));
        }
        return string_from_chars(&buf);
    }
    proof {
        reveal_strlit("    ");
        reveal_strlit("      ");
        reveal_strlit("  ");
        assert("      "@ =~= "    "@ + "  "@);
    }
    buf.push('{');
    buf.push('\n');
    append_lit(&mut buf, "  ");
    append_quoted(&mut buf, entries[0].0.as_str());
    append_lit(&mut buf, ": ");
    append_pretty_body(&mut buf, &entries[0].1, "    ", "      ", "  ");
    proof {
        assert(ev[0] == (entries@[0].0@, entries@[0].1@));
        assert(buf@ =~= seq!['{', '\n'] + "  "@ + quoted_spec(ev[0].0) + ": "@ + pretty_body_spec(
            ev[0].1,
            "    "@,
            "  "@,
        ));
    }
    let ghost head = buf@;
    let mut i: usize = 1;
    proof {
        assert(ev.skip(1).skip(0) =~= ev.skip(1));
        assert(head + Seq::<char>::empty() =~= head);
    }
    while i < entries.len()
        invariant
            1 <= i <= entries@.len(),
            ev == crate::sorting::entry_views(entries@),
            ev.len() == entries@.len(),
            forall|k: int|
                0 <= k < ev.len() ==> (#[trigger] ev[k]) == (entries@[k].0@, entries@[k].1@),
            head + table_rest_spec(ev.skip(1)) == buf@ + table_rest_spec(ev.skip(i as int)),
        decreases entries@.len() - i,
    {
        let ghost prev = buf@;
        proof {
            reveal_strlit("    ");
            reveal_strlit("      ");
            reveal_strlit("  ");
            assert("      "@ =~= "    "@ + "  "@);
        }
        buf.push(',');
        buf.push('\n');
        append_lit(&mut buf, "  ");
        append_quoted(&mut buf, entries[i].0.as_str());
        append_lit(&mut buf, ": ");
        append_pretty_body(&mut buf, &entries[i].1, "    ", "      ", "  ");
        i = i + 1;
        proof {
            assert(buf@ =~= prev + (seq![',', '\n'] + "  "@ + quoted_spec(ev[i - 1].0) + ": "@
                + pretty_body_spec(ev[i - 1].1, "    "@, "  "@)));
            assert(ev.skip(i - 1).skip(1) =~= ev.skip(i as int));
            assert(prev + (seq![',', '\n'] + "  "@ + quoted_spec(ev[i - 1].0) + ": "@
                + pretty_body_spec(ev[i - 1].1, "    "@, "  "@) + table_rest_spec(
                ev.skip(i as int),
            )) =~= buf@ + table_rest_spec(ev.skip(i as int)));
        }
    }
    buf.push('\n');
    buf.push('}');
    proof {
        assert(ev.skip(ev.len() as int) =~= Seq::<(Seq<char>, FriendlyBodyView)>::empty());
        assert(buf@ =~= pretty_table_spec(ev));
    }
    string_from_chars(&buf)
}

/// What the sorted rendering of a table is: its entries sorted
/// case-insensitively and stably, pretty-printed as one JSON object.
pub open spec fn sorted_render_spec(m: Seq<(Seq<char>, FriendlyBodyView)>) -> Seq<char> {
    pretty_table_spec(sort_entries_spec(m))
}

/// The message returned instead of rendering an empty table.
pub open spec fn empty_table_msg() -> Seq<char> {
    "Refusing to build string for 0 snippets"@
}

/// Renders a snippet table as JSON text with its keys in case-insensitive
/// sorted order.
///
/// An empty table is refused, never rendered as an empty object: writing it
/// out would wipe the file the table came from.
pub fn sort_friendly_snippets(snippets: FriendlySnippets) -> (r: Result<String, TektonError>)
    ensures
        snippets@.len() == 0 <==> (r matches Err(e) && e matches TektonError::Reason(m) && m@
            == empty_table_msg()),
        snippets@.len() > 0 ==> (r matches Ok(s) && s@ == sorted_render_spec(snippets@)),
{
    let ghost tv = snippets@;
    if snippets.snippets.is_empty() {
        return Err(TektonError::Reason(String::from_str("Refusing to build string for 0 snippets")));
    }
    let entries = snippets.snippets.into_entries();
    proof {
        assert(crate::sorting::entry_views(entries@) =~= tv);
    }
    let sorted = sort_entries(entries);
    let rendered = render_table_entries(&sorted);
    Ok(rendered)
}

/// Renders a snippet table as sorted JSON text; the same rule as
/// [`sort_friendly_snippets`].
pub fn build_friendly_string(friendlies: FriendlySnippets) -> (r: Result<String, TektonError>)
    ensures
        friendlies@.len() == 0 <==> (r matches Err(e) && e matches TektonError::Reason(m) && m@
            == empty_table_msg()),
        friendlies@.len() > 0 ==> (r matches Ok(s) && s@ == sorted_render_spec(friendlies@)),
{
    sort_friendly_snippets(friendlies)
}

} // verus!
