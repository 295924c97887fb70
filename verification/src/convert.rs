//! Carrying line-format records into the JSON table shape: the first body
//! line loses its leading blanks, escaped quotes in the description become
//! plain quotes, and each record is stored under a caller-supplied display
//! name.

use vstd::prelude::*;

use crate::errors::TektonError;
use crate::friendly::FriendlyBodyView;
use crate::friendly::FriendlySnippetBody;
use crate::friendly::FriendlySnippets;
use crate::render::build_friendly_string;
use crate::render::empty_table_msg;
use crate::render::sorted_render_spec;
use crate::snipmate::build_snippets_from_file;
use crate::snipmate::malformed_lines_msg;
use crate::snipmate::parse_lines_spec;
use crate::snipmate::snipmate_of_friendly;
use crate::snipmate::views_of;
use crate::snipmate::Snipmate;
use crate::snipmate::SnipmateView;
use crate::snippet::gen_friendly_view;
use crate::snippet::FriendlySnippet;
use crate::snippet::Snippet;
use crate::table::insert_entry;
use crate::text::chars_of;
use crate::text::is_blank;
use crate::text::replace_pair;
use crate::text::replace_pair_spec;
use crate::text::string_from_chars;
use crate::text::trim_start;
use crate::text::trim_start_spec;
use crate::text::lemma_replace_pair_absent;
use crate::text::lemma_trim_start_noblank;

verus! {

/// A body with its first line stripped of leading blanks; all later lines
/// keep their indentation.
pub open spec fn trimmed_body(body: Seq<Seq<char>>) -> Seq<Seq<char>> {
    if body.len() == 0 {
        body
    } else {
        body.update(0, trim_start_spec(body[0]))
    }
}

/// The JSON record a line-format record becomes: the prefix carries over,
/// the first body line is trimmed, and the description — kept absent when it
/// was absent — has its escaped quotes unescaped to plain quotes.
pub open spec fn friendly_view_of_snip(s: SnipmateView) -> FriendlyBodyView {
    FriendlyBodyView {
        prefix: Some(s.prefix),
        body: trimmed_body(s.body),
        description: match s.description {
            Some(d) => Some(replace_pair_spec(d, '\\', '"', seq!['"'])),
            None => None,
        },
    }
}

/// The table the records become under the given display names, inserted in
/// order.
pub open spec fn converted_table_spec(snips: Seq<SnipmateView>, names: Seq<Seq<char>>) -> Seq<
    (Seq<char>, FriendlyBodyView),
>
    decreases snips.len(),
{
    if snips.len() == 0 {
        Seq::empty()
    } else {
        insert_entry(
            converted_table_spec(snips.drop_last(), names.drop_last()),
            names[snips.len() - 1],
            friendly_view_of_snip(snips.last()),
        )
    }
}

/// Replaces the first body line with its trimmed form.
fn trim_first_line(body: &mut Vec<String>)
    ensures
        final(body).deep_view() == trimmed_body(old(body).deep_view()),
{
    if body.len() > 0 {
        let first = body.remove(0);
        let fc = chars_of(first.as_str());
        let t = trim_start(&fc);
        body.insert(0, string_from_chars(&t));
        proof {
            assert(body.deep_view() =~~= trimmed_body(old(body).deep_view()));
        }
    } else {
        proof {
            assert(body.deep_view() =~~= trimmed_body(old(body).deep_view()));
        }
    }
}

/// Builds the JSON record a line-format record becomes.
fn friendly_record_of(s: Snipmate) -> (r: FriendlySnippetBody)
    ensures
        r@ == friendly_view_of_snip(s@),
{
    let mut quote_rep: Vec<char> = Vec::new();
    quote_rep.push('"');
    proof {
        assert(quote_rep@ =~= seq!['"']);
    }
    let Snipmate { prefix, mut body, description } = s;
    trim_first_line(&mut body);
    let description: Option<String> = match &description {
        Some(d) => {
            let dv = chars_of(d.as_str());
            let d1 = replace_pair(&dv, '\\', '"', &quote_rep);
            Some(string_from_chars(&d1))
        },
        None => None,
    };
    let r = FriendlySnippetBody { prefix: Some(prefix), body, description };
    proof {
        assert(r@ =~~= friendly_view_of_snip(s@));
    }
    r
}

/// Converts line-format records into a JSON snippet table, each stored
/// under the display name supplied for it.
pub fn convert_snipmate_to_friendlysnippets(snips: Vec<Snipmate>, names: Vec<String>) -> (r:
    FriendlySnippets)
    requires
        names@.len() == snips@.len(),
    ensures
        r@ == converted_table_spec(views_of(snips@), names.deep_view()),
        r.wf(),
{
    let mut snips = snips;
    let mut names = names;
    let ghost sv = views_of(snips@);
    let ghost nv = names.deep_view();
    let ghost n = sv.len();
    let mut friendly_handle = FriendlySnippets::new();
    proof {
        assert(sv.take(0) =~= Seq::<SnipmateView>::empty());
        assert(nv.take(0) =~= Seq::<Seq<char>>::empty());
    }
    while snips.len() > 0
        invariant
            snips@.len() == names@.len(),
            snips@.len() <= n,
            n == sv.len(),
            n == nv.len(),
            forall|k: int|
                0 <= k < snips@.len() ==> (#[trigger] snips@[k])@ == sv[k + (n - snips@.len())],
            forall|k: int|
                0 <= k < names@.len() ==> (#[trigger] names@[k])@ == nv[k + (n - names@.len())],
            friendly_handle@ == converted_table_spec(
                sv.take(n - snips@.len()),
                nv.take(n - snips@.len()),
            ),
            friendly_handle.wf(),
        decreases snips@.len(),
    {
        let ghost i = n - snips@.len();
        let ghost snips_before = snips@;
        let ghost names_before = names@;
        let s = snips.remove(0);
        let name = names.remove(0);
        proof {
            assert(s@ == sv[i]);
            assert(name@ == nv[i]);
            assert(snips@ =~= snips_before.skip(1));
            assert(names@ =~= names_before.skip(1));
            assert forall|k: int|
                0 <= k < snips@.len() implies (#[trigger] snips@[k])@ == sv[k + (n
                    - snips@.len())] by {
                assert(snips@[k] == snips_before[k + 1]);
            }
            assert forall|k: int|
                0 <= k < names@.len() implies (#[trigger] names@[k])@ == nv[k + (n
                    - names@.len())] by {
                assert(names@[k] == names_before[k + 1]);
            }
            assert(sv.take(i + 1).drop_last() =~= sv.take(i));
            assert(nv.take(i + 1).drop_last() =~= nv.take(i));
            assert(sv.take(i + 1).last() == sv[i]);
            assert(nv.take(i + 1)[i] == nv[i]);
        }
        let friendly_body = friendly_record_of(s);
        friendly_handle.snippets.insert(name, friendly_body);
        proof {
            assert(friendly_handle@ == converted_table_spec(sv.take(i + 1), nv.take(i + 1)));
        }
    }
    proof {
        assert(sv.take(n as int) =~= sv);
        assert(nv.take(n as int) =~= nv);
    }
    friendly_handle
}

/// Converts line-format text to a sorted JSON rendering in one pass: the
/// text is parsed, each record is carried over under the display name
/// supplied for it, and the table is rendered with its keys sorted.
pub fn compose_friendly_snippets(lines: Vec<String>, names: Vec<String>) -> (r: Result<
    String,
    TektonError,
>)
    requires
        parse_lines_spec(lines.deep_view()) matches Some(rs) ==> names@.len() == rs.len(),
    ensures
        parse_lines_spec(lines.deep_view()) is None ==> (r matches Err(e) && e matches
            TektonError::Reason(m) && m@ == malformed_lines_msg()),
        parse_lines_spec(lines.deep_view()) matches Some(rs) ==> {
            let t = converted_table_spec(rs, names.deep_view());
            if t.len() == 0 {
                r matches Err(e) && e matches TektonError::Reason(m) && m@ == empty_table_msg()
            } else {
                r matches Ok(s) && s@ == sorted_render_spec(t)
            }
        },
{
    let snips = build_snippets_from_file(lines)?;
    let friendlies = convert_snipmate_to_friendlysnippets(snips, names);
    let result = build_friendly_string(friendlies)?;
    Ok(result)
}

/// Converts old-style records into named JSON records, each under the
/// default display name derived from its prefix.
pub fn gen_friendly_snippets(snips: Vec<Snippet>) -> (r: Vec<FriendlySnippet>)
    ensures
        r@.len() == snips@.len(),
        forall|i: int|
            0 <= i < r@.len() ==> (#[trigger] r@[i])@ == gen_friendly_view(snips@[i]@),
{
    let mut snips = snips;
    let ghost sv = snips@.map_values(|s: Snippet| s@);
    let ghost n = sv.len();
    let mut friendly_handle: Vec<FriendlySnippet> = Vec::new();
    while snips.len() > 0
        invariant
            snips@.len() <= n,
            n == sv.len(),
            forall|k: int|
                0 <= k < snips@.len() ==> (#[trigger] snips@[k])@ == sv[k + (n - snips@.len())],
            friendly_handle@.len() == n - snips@.len(),
            forall|i: int|
                0 <= i < friendly_handle@.len() ==> (#[trigger] friendly_handle@[i])@
                    == gen_friendly_view(sv[i]),
        decreases snips@.len(),
    {
        let ghost i = n - snips@.len();
        let ghost snips_before = snips@;
        let s = snips.remove(0);
        proof {
            assert(s@ == sv[i]);
            assert(snips@ =~= snips_before.skip(1));
            assert forall|k: int|
                0 <= k < snips@.len() implies (#[trigger] snips@[k])@ == sv[k + (n
                    - snips@.len())] by {
                assert(snips@[k] == snips_before[k + 1]);
            }
        }
        let Snippet { prefix, mut body, description: _ } = s;
        trim_first_line(&mut body);
        let mut name = String::from_str("snippet ");
        name.append(prefix.as_str());
        let friendly_body = FriendlySnippetBody {
            prefix: Some(prefix),
            body,
            description: Some(String::new()),
        };
        let named = FriendlySnippet { name, snip_body: friendly_body };
        proof {
            assert(named@ =~~= gen_friendly_view(sv[i]));
        }
        friendly_handle.push(named);
    }
    friendly_handle
}

/// Round trip on a record: carried into the JSON shape and read back, a
/// line-format record keeps its prefix; its body keeps every line, with
/// only the first stripped of leading blanks — exactly unchanged when that
/// line had none; an absent description stays absent; and a description
/// free of escape sequences survives unchanged.
pub proof fn lemma_record_round_trip(s: SnipmateView)
    ensures
        snipmate_of_friendly(friendly_view_of_snip(s)).prefix == s.prefix,
        snipmate_of_friendly(friendly_view_of_snip(s)).body == trimmed_body(s.body),
        (s.body.len() == 0 || s.body[0].len() == 0 || !is_blank(s.body[0][0]))
            ==> snipmate_of_friendly(friendly_view_of_snip(s)).body == s.body,
        s.description is None ==> snipmate_of_friendly(friendly_view_of_snip(s)).description
            is None,
        s.description matches Some(d) ==> ((forall|i: int| 0 <= i < d.len() ==> d[i] != '\\')
            ==> snipmate_of_friendly(friendly_view_of_snip(s)).description == Some(d)),
{
    if s.body.len() == 0 || s.body[0].len() == 0 || !is_blank(s.body[0][0]) {
        if s.body.len() > 0 {
            lemma_trim_start_noblank(s.body[0]);
            assert(trimmed_body(s.body) =~= s.body);
        }
    }
    match s.description {
        Some(d) => {
            if forall|i: int| 0 <= i < d.len() ==> d[i] != '\\' {
                lemma_replace_pair_absent(d, '\\', '"', seq!['"']);
            }
        },
        None => {},
    }
}

/// A body line without quotes or backslashes is rendered untouched: a tab,
/// the line itself, a newline — the leading tab marker of the line format
/// is reconstructed by the renderer itself.
pub proof fn lemma_clean_line_render(l: Seq<char>)
    requires
        forall|i: int| 0 <= i < l.len() ==> l[i] != '\\' && l[i] != '"',
    ensures
        crate::snipmate::normalize_body_line(l) == l,
        crate::snipmate::render_line(l) == seq!['\t'] + l + seq!['\n'],
{
    crate::text::lemma_strip_edges_absent(l, '"');
    lemma_replace_pair_absent(l, '\\', '"', seq!['"']);
    lemma_replace_pair_absent(l, '\\', 't', seq![' ', ' ']);
}

} // verus!
