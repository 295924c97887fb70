//! The line-oriented snippet format: records with a trigger prefix, literal
//! body lines and an optional description, rendered as a `snippet` header
//! line followed by tab-indented body lines.

use vstd::prelude::*;
use vstd::string::StrSliceExecFns;
use vstd::string::StringExecFns;

use crate::errors::TektonError;
use crate::friendly::FriendlyBodyView;
use crate::friendly::FriendlySnippets;
use crate::text::append_chars;
use crate::text::chars_of;
use crate::text::find_header;
use crate::text::header_scan;
use crate::text::is_header_line;
use crate::text::join_spec;
use crate::text::join_with;
use crate::text::replace_char;
use crate::text::replace_char_spec;
use crate::text::replace_pair;
use crate::text::replace_pair_spec;
use crate::text::skip_chars;
use crate::text::split_blanks;
use crate::text::split_blanks_spec;
use crate::text::string_from_chars;
use crate::text::strip_edges;
use crate::text::strip_edges_spec;

verus! {

/// The ghost shape of a line-format snippet record.
#[verifier::ext_equal]
pub struct SnipmateView {
    /// The trigger for the snippet.
    pub prefix: Seq<char>,
    /// The lines of the snippet.
    pub body: Seq<Seq<char>>,
    /// The explanation, when present.
    pub description: Option<Seq<char>>,
}

/// A record of the line-oriented snippet format.
#[derive(Debug, PartialEq, Eq, Clone)]
pub struct Snipmate {
    /// The trigger for the snippet.
    pub prefix: String,
    /// The lines of the snippet, in order.
    pub body: Vec<String>,
    /// An optional explanation shown on the header line.
    pub description: Option<String>,
}

impl View for Snipmate {
    type V = SnipmateView;

    open spec fn view(&self) -> SnipmateView {
        SnipmateView {
            prefix: self.prefix@,
            body: self.body.deep_view(),
            description: self.description.deep_view(),
        }
    }
}

/// A body line as the renderer emits it: stray edge quotes dropped, escaped
/// quotes unescaped, escaped tabs expanded to two spaces.
pub open spec fn normalize_body_line(l: Seq<char>) -> Seq<char> {
    replace_pair_spec(
        replace_pair_spec(strip_edges_spec(l, '"'), '\\', '"', seq!['"']),
        '\\',
        't',
        seq![' ', ' '],
    )
}

/// One rendered body line: a tab, the normalized text, a newline.
pub open spec fn render_line(l: Seq<char>) -> Seq<char> {
    seq!['\t'] + normalize_body_line(l) + seq!['\n']
}

/// All body lines rendered in order.
pub open spec fn render_lines(body: Seq<Seq<char>>) -> Seq<char>
    decreases body.len(),
{
    if body.len() == 0 {
        Seq::empty()
    } else {
        render_line(body[0]) + render_lines(body.skip(1))
    }
}

/// How [`render_lines`] grows when one line is appended.
pub proof fn lemma_render_lines_push(body: Seq<Seq<char>>, x: Seq<char>)
    ensures
        render_lines(body.push(x)) == render_lines(body) + render_line(x),
    decreases body.len(),
{
    if body.len() == 0 {
        assert(body.push(x).skip(1) =~= Seq::<Seq<char>>::empty());
        assert(body.push(x)[0] == x);
        assert(render_lines(Seq::<Seq<char>>::empty()) == Seq::<char>::empty());
        assert(render_lines(body.push(x)) == render_line(x) + Seq::<char>::empty());
        assert(render_line(x) + Seq::<char>::empty() =~= render_line(x));
        assert(Seq::<char>::empty() + render_line(x) =~= render_line(x));
    } else {
        lemma_render_lines_push(body.skip(1), x);
        assert(body.push(x).skip(1) =~= body.skip(1).push(x));
        assert(render_line(body[0]) + (render_lines(body.skip(1)) + render_line(x)) =~= (
        render_line(body[0]) + render_lines(body.skip(1))) + render_line(x));
    }
}

/// The rendered header line: `snippet` and the prefix with every quote
/// removed, then the description exactly as stored when it is present and
/// non-empty, then a newline.
pub open spec fn header_spec(prefix: Seq<char>, description: Option<Seq<char>>) -> Seq<char> {
    let base = replace_char_spec("snippet "@ + prefix, '"', Seq::empty());
    let with_desc = match description {
        Some(d) => if d.len() > 0 {
            base + seq![' '] + d
        } else {
            base
        },
        None => base,
    };
    with_desc + seq!['\n']
}

/// The full rendering of one record: header line, then body lines.
pub open spec fn display_spec(s: SnipmateView) -> Seq<char> {
    header_spec(s.prefix, s.description) + render_lines(s.body)
}

impl Snipmate {
    /// A record with the given fields.
    pub fn new(prefix: String, body: Vec<String>, description: Option<String>) -> (r: Snipmate)
        ensures
            r@.prefix == prefix@,
            r@.body == body.deep_view(),
            r@.description == description.deep_view(),
    {
        Snipmate { prefix, body, description }
    }

    /// Renders the record as line-format text.
    pub fn display(self) -> (r: String)
        ensures
            r@ == display_spec(self@),
    {
        let empty_rep: Vec<char> = Vec::new();
        let mut quote_rep: Vec<char> = Vec::new();
        quote_rep.push('"');
        let mut tab_rep: Vec<char> = Vec::new();
        tab_rep.push(' ');
        tab_rep.push(' ');
        proof {
            assert(quote_rep@ =~= seq!['"']);
            assert(tab_rep@ =~= seq![' ', ' ']);
        }

        let mut h: Vec<char> = chars_of("snippet ");
        let pv = chars_of(self.prefix.as_str());
        append_chars(&mut h, &pv);
        let mut out = replace_char(&h, '"', &empty_rep);
        match &self.description {
            Some(d) => {
                if d.as_str().unicode_len() > 0 {
                    out.push(' ');
                    let dv = chars_of(d.as_str());
                    append_chars(&mut out, &dv);
                }
            },
            None => {},
        }
        out.push('\n');
        let ghost base = replace_char_spec("snippet "@ + self.prefix@, '"', Seq::empty());
        proof {
            assert("snippet "@ + self.prefix@ =~= h@);
            match self@.description {
                Some(d) => {
                    if d.len() > 0 {
                        assert(out@ =~= (base + seq![' '] + d) + seq!['\n']);
                    } else {
                        assert(out@ =~= base + seq!['\n']);
                    }
                },
                None => {
                    assert(out@ =~= base + seq!['\n']);
                },
            }
        }
        let mut buf = out;
        proof {
            assert(buf@ == header_spec(self@.prefix, self@.description));
        }
        let ghost header = buf@;
        let ghost body_views = self.body.deep_view();
        let mut i: usize = 0;
        proof {
            assert(body_views.take(0) =~= Seq::<Seq<char>>::empty());
        }
        while i < self.body.len()
            invariant
                i <= self.body@.len(),
                body_views == self.body.deep_view(),
                body_views.len() == self.body@.len(),
                forall|k: int| 0 <= k < body_views.len() ==> body_views[k] == self.body@[k]@,
                quote_rep@ == seq!['"'],
                tab_rep@ == seq![' ', ' '],
                buf@ == header + render_lines(body_views.take(i as int)),
            decreases self.body@.len() - i,
        {
            let lv = chars_of(self.body[i].as_str());
            let l1 = strip_edges(&lv, '"');
            let l2 = replace_pair(&l1, '\\', '"', &quote_rep);
            let l3 = replace_pair(&l2, '\\', 't', &tab_rep);
            buf.push('\t');
            append_chars(&mut buf, &l3);
            buf.push('\n');
            i = i + 1;
            proof {
                let ghost l = body_views[i - 1];
                assert(l3@ == normalize_body_line(l));
                lemma_render_lines_push(body_views.take(i - 1), l);
                assert(body_views.take(i as int) =~= body_views.take(i - 1).push(l));
                assert(buf@ =~= header + render_lines(body_views.take(i as int)));
            }
        }
        proof {
            assert(body_views.take(self.body@.len() as int) =~= body_views);
        }
        string_from_chars(&buf)
    }
}

/// The ghost shapes of the records, in order.
pub open spec fn views_of(ss: Seq<Snipmate>) -> Seq<SnipmateView> {
    ss.map_values(|s: Snipmate| s@)
}

/// The concatenated renderings of the records, in order.
pub open spec fn concat_displays(vs: Seq<SnipmateView>) -> Seq<char>
    decreases vs.len(),
{
    if vs.len() == 0 {
        Seq::empty()
    } else {
        display_spec(vs[0]) + concat_displays(vs.skip(1))
    }
}

/// Renders a sequence of records as one line-format text.
///
/// Refuses an empty sequence rather than producing an empty file.
pub fn build_snipmate_string(snippets: Vec<Snipmate>) -> (r: Result<String, TektonError>)
    ensures
        snippets@.len() == 0 <==> (r matches Err(e) && e matches TektonError::Reason(m) && m@
            == "No snippets to convert"@),
        snippets@.len() > 0 ==> (r matches Ok(s) && s@ == concat_displays(views_of(snippets@))),
{
    let mut snippets = snippets;
    if snippets.is_empty() {
        return Err(TektonError::Reason(String::from_str("No snippets to convert")));
    }
    let ghost orig = views_of(snippets@);
    let mut out = String::new();
    proof {
        assert(Seq::<char>::empty() + concat_displays(orig) =~= concat_displays(orig));
    }
    while snippets.len() > 0
        invariant
            concat_displays(orig) == out@ + concat_displays(views_of(snippets@)),
        decreases snippets@.len(),
    {
        let ghost before = views_of(snippets@);
        let s = snippets.remove(0);
        let d = s.display();
        out.append(d.as_str());
        proof {
            assert(views_of(snippets@) =~= before.skip(1));
            assert(out@ + concat_displays(views_of(snippets@)) =~= concat_displays(orig));
        }
    }
    Ok(out)
}

} // verus!

verus! {

/// The message returned when a body line appears before any header line.
pub open spec fn malformed_lines_msg() -> Seq<char> {
    "File contains a snippet body line before any snippet header. Aborting."@
}

/// The record that a header line starts: the blank-separated token after
/// the keyword is the prefix; the tokens after that, rejoined with single
/// spaces, with escaped quotes unescaped to plain quotes and bare edge
/// quotes stripped, are the description; the body starts empty.
pub open spec fn header_record(l: Seq<char>) -> SnipmateView {
    let after = match header_scan(l, 0) {
        Some(p) => l.skip(p + 8),
        None => Seq::empty(),
    };
    let toks = split_blanks_spec(after);
    let name = if toks.len() >= 1 {
        toks[0]
    } else {
        Seq::empty()
    };
    let rest = if toks.len() >= 1 {
        toks.skip(1)
    } else {
        Seq::<Seq<char>>::empty()
    };
    let d1 = replace_pair_spec(join_spec(rest, ' '), '\\', '"', seq!['"']);
    let d2 = strip_edges_spec(d1, '"');
    SnipmateView {
        prefix: name,
        body: Seq::empty(),
        description: if d2.len() == 0 {
            None
        } else {
            Some(d2)
        },
    }
}

/// A parsed body line: escaped tabs expanded to two spaces.
pub open spec fn parsed_body_line(l: Seq<char>) -> Seq<char> {
    replace_pair_spec(l, '\\', 't', seq![' ', ' '])
}

/// What parsing the line-format text yields: each header line starts a
/// record, every other line is appended to the body of the latest record.
/// `None` when a body line appears before any header line.
pub open spec fn parse_lines_spec(lines: Seq<Seq<char>>) -> Option<Seq<SnipmateView>>
    decreases lines.len(),
{
    if lines.len() == 0 {
        Some(Seq::empty())
    } else {
        match parse_lines_spec(lines.drop_last()) {
            None => None,
            Some(rs) => {
                let l = lines.last();
                if is_header_line(l) {
                    Some(rs.push(header_record(l)))
                } else if rs.len() == 0 {
                    None
                } else {
                    let last = rs.last();
                    Some(
                        rs.update(
                            rs.len() - 1,
                            SnipmateView { body: last.body.push(parsed_body_line(l)), ..last },
                        ),
                    )
                }
            },
        }
    }
}

/// Parses line-format text into records.
///
/// A line that contains the `snippet` keyword starts a record; every other
/// line is appended to the record started most recently. A body line before
/// any header is malformed input.
pub fn build_snippets_from_file(lines: Vec<String>) -> (r: Result<Vec<Snipmate>, TektonError>)
    ensures
        match parse_lines_spec(lines.deep_view()) {
            Some(rs) => r matches Ok(v) && views_of(v@) == rs,
            None => r matches Err(e) && e matches TektonError::Reason(m) && m@
                == malformed_lines_msg(),
        },
{
    let mut quote_rep: Vec<char> = Vec::new();
    quote_rep.push('"');
    let mut tab_rep: Vec<char> = Vec::new();
    tab_rep.push(' ');
    tab_rep.push(' ');
    proof {
        assert(quote_rep@ =~= seq!['"']);
        assert(tab_rep@ =~= seq![' ', ' ']);
    }
    let ghost lv = lines.deep_view();
    let mut records: Vec<Snipmate> = Vec::new();
    let mut i: usize = 0;
    proof {
        assert(lv.take(0) =~= Seq::<Seq<char>>::empty());
        assert(views_of(records@) =~= Seq::<SnipmateView>::empty());
    }
    while i < lines.len()
        invariant
            i <= lines@.len(),
            lv == lines.deep_view(),
            lv.len() == lines@.len(),
            forall|k: int| 0 <= k < lv.len() ==> lv[k] == lines@[k]@,
            quote_rep@ == seq!['"'],
            tab_rep@ == seq![' ', ' '],
            parse_lines_spec(lv.take(i as int)) == Some(views_of(records@)),
        decreases lines@.len() - i,
    {
        let line = chars_of(lines[i].as_str());
        let ghost prev = views_of(records@);
        if let Some(p) = find_header(&line) {
            proof {
                assert(is_header_line(lv[i as int]));
                assert(header_scan(lv[i as int], 0) == Some(p as int));
                crate::text::lemma_header_scan(lv[i as int], 0);
            }
            let after = skip_chars(&line, p + 8);
            let ghost after_spec = lv[i as int].skip(p as int + 8);
            let mut toks = split_blanks(&after);
            let ghost toks_spec = split_blanks_spec(after_spec);
            proof {
                assert(after@ == after_spec);
                assert(toks.deep_view() == toks_spec);
            }
            let ghost name_spec = if toks_spec.len() >= 1 {
                toks_spec[0]
            } else {
                Seq::<char>::empty()
            };
            let name: String = if toks.len() >= 1 {
                let nm = string_from_chars(&toks[0]);
                proof {
                    assert(toks.deep_view()[0] == toks@[0].deep_view());
                    assert(toks@[0].deep_view() =~= toks@[0]@);
                    assert(nm@ == name_spec);
                }
                nm
            } else {
                String::new()
            };
            let ghost rest_spec = if toks_spec.len() >= 1 {
                toks_spec.skip(1)
            } else {
                Seq::<Seq<char>>::empty()
            };
            if toks.len() >= 1 {
                toks.remove(0);
                proof {
                    assert(toks.deep_view() =~= rest_spec);
                }
            } else {
                proof {
                    assert(toks.deep_view() =~= rest_spec);
                }
            }
            let joined = join_with(&toks, ' ');
            let d1 = replace_pair(&joined, '\\', '"', &quote_rep);
            let d2 = strip_edges(&d1, '"');
            let ghost d2_spec = strip_edges_spec(
                replace_pair_spec(join_spec(rest_spec, ' '), '\\', '"', seq!['"']),
                '"',
            );
            proof {
                assert(d2@ == d2_spec);
            }
            let description: Option<String> = if d2.len() == 0 {
                None
            } else {
                Some(string_from_chars(&d2))
            };
            records.push(Snipmate { prefix: name, body: Vec::new(), description });
            i = i + 1;
            proof {
                let rec = records@.last()@;
                let hr = header_record(lv[i - 1]);
                assert(rec.prefix == name@ && name@ == hr.prefix);
                assert(rec.body =~= hr.body);
                assert(rec.description == description.deep_view());
                if d2_spec.len() == 0 {
                    assert(rec.description == hr.description);
                } else {
                    assert(rec.description == Some(d2_spec) && hr.description == Some(d2_spec));
                }
                assert(rec =~~= hr);
                assert(lv.take(i as int).drop_last() =~= lv.take(i - 1));
                assert(lv.take(i as int).last() == lv[i - 1]);
                assert(views_of(records@) =~= prev.push(rec));
            }
        } else {
            if records.len() == 0 {
                proof {
                    assert(lv.take(i + 1).drop_last() =~= lv.take(i as int));
                    assert(lv.take(i + 1).last() == lv[i as int]);
                    lemma_parse_prefix_none(lv, i + 1);
                }
                return Err(
                    TektonError::Reason(
                        String::from_str(
                            "File contains a snippet body line before any snippet header. Aborting.",
                        ),
                    ),
                );
            }
            let expanded = replace_pair(&line, '\\', 't', &tab_rep);
            let mut s = match records.pop() {
                Some(s) => s,
                None => {
                    proof {
                        assert(false);
                    }
                    Snipmate { prefix: String::new(), body: Vec::new(), description: None }
                },
            };
            let ghost sv = s@;
            s.body.push(string_from_chars(&expanded));
            records.push(s);
            i = i + 1;
            proof {
                let rec = records@.last()@;
                assert(rec.body =~= sv.body.push(parsed_body_line(lv[i - 1])));
                assert(rec =~~= SnipmateView {
                    body: sv.body.push(parsed_body_line(lv[i - 1])),
                    ..sv
                });
                assert(lv.take(i as int).drop_last() =~= lv.take(i - 1));
                assert(lv.take(i as int).last() == lv[i - 1]);
                assert(prev.len() > 0 && prev.last() == sv);
                assert(views_of(records@) =~= prev.update(prev.len() - 1, rec));
            }
        }
    }
    proof {
        assert(lv.take(lv.len() as int) =~= lv);
    }
    Ok(records)
}

/// Once parsing has failed, any longer input fails too.
proof fn lemma_parse_prefix_none(lv: Seq<Seq<char>>, i: int)
    requires
        0 <= i <= lv.len(),
        parse_lines_spec(lv.take(i)) is None,
    ensures
        parse_lines_spec(lv) is None,
    decreases lv.len() - i,
{
    if i < lv.len() {
        assert(lv.take(i + 1).drop_last() =~= lv.take(i));
        lemma_parse_prefix_none(lv, i + 1);
    } else {
        assert(lv.take(i) =~= lv);
    }
}

/// Whether every record of the table carries a prefix.
pub open spec fn all_have_prefix(m: Seq<(Seq<char>, FriendlyBodyView)>) -> bool {
    forall|i: int| 0 <= i < m.len() ==> (#[trigger] m[i]).1.prefix is Some
}

/// The line-format record a completed JSON record stands for: the prefix
/// it carries, its body and its description.
pub open spec fn snipmate_of_friendly(b: FriendlyBodyView) -> SnipmateView {
    SnipmateView { prefix: b.prefix->0, body: b.body, description: b.description }
}

/// The line-format records that the table's entries stand for, in table
/// order; the display names are dropped.
pub open spec fn snipmate_views_of(m: Seq<(Seq<char>, FriendlyBodyView)>) -> Seq<SnipmateView> {
    m.map_values(|e: (Seq<char>, FriendlyBodyView)| snipmate_of_friendly(e.1))
}

/// Turns a JSON snippet table into line-format records, in table order.
///
/// Refuses an empty table, and refuses a table in which any record still
/// lacks a prefix.
pub fn create_snipmate_structs_from_json(friendlies: FriendlySnippets) -> (r: Result<
    Vec<Snipmate>,
    TektonError,
>)
    ensures
        friendlies@.len() == 0 ==> (r matches Err(e) && e matches TektonError::Reason(m) && m@
            == "No snippets to convert"@),
        friendlies@.len() > 0 && all_have_prefix(friendlies@) ==> (r matches Ok(v) && views_of(v@)
            == snipmate_views_of(friendlies@)),
        friendlies@.len() > 0 && !all_have_prefix(friendlies@) ==> (r matches Err(e) && e matches
            TektonError::Reason(m) && m@ == "Missing snippets in count, conversion aborted."@),
{
    let ghost tv = friendlies@;
    let mut entries = friendlies.snippets.into_entries();
    if entries.is_empty() {
        return Err(TektonError::Reason(String::from_str("No snippets to convert")));
    }
    let ghost n = tv.len();
    let mut out: Vec<Snipmate> = Vec::new();
    let mut missing: bool = false;
    proof {
        assert(tv.take(0) =~= Seq::<(Seq<char>, FriendlyBodyView)>::empty());
        assert(views_of(out@) =~= Seq::<SnipmateView>::empty());
        assert(snipmate_views_of(tv.take(0)) =~= Seq::<SnipmateView>::empty());
    }
    while entries.len() > 0
        invariant
            entries@.len() <= n,
            n == tv.len(),
            forall|k: int|
                0 <= k < entries@.len() ==> ((#[trigger] entries@[k]).0@, entries@[k].1@) == tv[k
                    + (n - entries@.len())],
            missing == !all_have_prefix(tv.take(n - entries@.len())),
            !missing ==> views_of(out@) == snipmate_views_of(tv.take(n - entries@.len())),
        decreases entries@.len(),
    {
        let ghost i = n - entries@.len();
        let ghost ents0 = entries@;
        let ghost was_missing = missing;
        let e = entries.remove(0);
        let ghost ev = e.1@;
        proof {
            assert((e.0@, e.1@) == tv[i]);
            assert(entries@ =~= ents0.skip(1));
            assert forall|k: int|
                0 <= k < entries@.len() implies ((#[trigger] entries@[k]).0@, entries@[k].1@)
                    == tv[k + (n - entries@.len())] by {
                assert(entries@[k] == ents0[k + 1]);
            }
            assert(tv.take(i + 1).drop_last() =~= tv.take(i));
            assert(tv.take(i + 1)[i] == tv[i]);
        }
        match e.1.prefix {
            Some(p) => {
                proof {
                    assert(ev.prefix == Some(p@));
                    assert(tv[i].1.prefix is Some);
                    if !was_missing {
                        assert forall|j: int|
                            0 <= j < i + 1 implies (#[trigger] tv.take(i + 1)[j]).1.prefix
                            is Some by {
                            if j < i {
                                assert(tv.take(i)[j] == tv[j]);
                                assert(tv.take(i)[j].1.prefix is Some);
                            }
                        }
                        assert(all_have_prefix(tv.take(i + 1)));
                    } else {
                        let j = choose|j: int|
                            0 <= j < i && !((#[trigger] tv.take(i)[j]).1.prefix is Some);
                        assert(tv.take(i + 1)[j] == tv.take(i)[j]);
                        assert(!all_have_prefix(tv.take(i + 1)));
                    }
                }
                let ghost prev = views_of(out@);
                out.push(Snipmate { prefix: p, body: e.1.body, description: e.1.description });
                proof {
                    if !was_missing {
                        let rec = out@.last()@;
                        assert(rec.prefix == p@ && p@ == tv[i].1.prefix->0);
                        assert(rec.body == ev.body && rec.description == ev.description);
                        assert(rec =~~= snipmate_views_of(tv.take(i + 1))[i]);
                        assert forall|k: int|
                            0 <= k < i + 1 implies views_of(out@)[k] == snipmate_views_of(
                            tv.take(i + 1),
                        )[k] by {
                            if k < i {
                                assert(views_of(out@)[k] == out@[k]@);
                                assert(out@[k]@ == prev[k]);
                                assert(prev[k] == snipmate_views_of(tv.take(i))[k]);
                                assert(tv.take(i + 1)[k] == tv.take(i)[k]);
                            } else {
                                assert(views_of(out@)[k] == rec);
                            }
                        }
                        assert(views_of(out@) =~= snipmate_views_of(tv.take(i + 1)));
                    }
                }
            },
            None => {
                missing = true;
                proof {
                    assert(ev.prefix is None);
                    assert(tv.take(i + 1)[i].1.prefix is None);
                    assert(!all_have_prefix(tv.take(i + 1)));
                }
            },
        }
    }
    proof {
        assert(tv.take(n as int) =~= tv);
    }
    if missing {
        return Err(
            TektonError::Reason(String::from_str("Missing snippets in count, conversion aborted.")),
        );
    }
    Ok(out)
}

/// Converts a JSON snippet table to line-format text: every record is
/// rendered in table order.
pub fn compose_snipmate_snippets(friendlies: FriendlySnippets) -> (r: Result<String, TektonError>)
    ensures
        friendlies@.len() == 0 ==> (r matches Err(e) && e matches TektonError::Reason(m) && m@
            == "No snippets to convert"@),
        friendlies@.len() > 0 && !all_have_prefix(friendlies@) ==> (r matches Err(e) && e matches
            TektonError::Reason(m) && m@ == "Missing snippets in count, conversion aborted."@),
        friendlies@.len() > 0 && all_have_prefix(friendlies@) ==> (r matches Ok(s) && s@
            == concat_displays(snipmate_views_of(friendlies@))),
{
    let ghost tv = friendlies@;
    let snippets = create_snipmate_structs_from_json(friendlies)?;
    proof {
        assert(snipmate_views_of(tv).len() == tv.len());
    }
    let snipmate_string = build_snipmate_string(snippets)?;
    Ok(snipmate_string)
}

} // verus!

verus! {

use crate::text::eq_ci;
use crate::text::header_pat;
use crate::text::is_blank;
use crate::text::lemma_replace_char_absent;
use crate::text::lemma_replace_pair_absent;
use crate::text::lemma_token_len_boundary;
use crate::text::matches_header_at;

/// A character sequence free of the characters the renderer rewrites.
pub open spec fn clean_line(l: Seq<char>) -> bool {
    forall|i: int| 0 <= i < l.len() ==> l[i] != '\\' && l[i] != '"'
}

/// A usable trigger: non-empty, with no blanks and no quotes.
pub open spec fn clean_prefix(p: Seq<char>) -> bool {
    p.len() > 0 && (forall|i: int| 0 <= i < p.len() ==> !is_blank(p[i]) && p[i] != '"')
}

/// A body line with the renderer's leading tab in front of it.
pub open spec fn tabbed(l: Seq<char>) -> Seq<char> {
    seq!['\t'] + l
}

/// The body lines, each behind its leading tab.
pub open spec fn tabbed_lines(body: Seq<Seq<char>>) -> Seq<Seq<char>> {
    body.map_values(|l: Seq<char>| tabbed(l))
}

/// A clean header renders as the keyword and the prefix, untouched.
pub proof fn lemma_clean_header(prefix: Seq<char>)
    requires
        clean_prefix(prefix),
    ensures
        header_spec(prefix, None) == "snippet "@ + prefix + seq!['\n'],
{
    reveal_strlit("snippet ");
    let s = "snippet "@ + prefix;
    assert forall|i: int| 0 <= i < s.len() implies s[i] != '"' by {
        if i < 8 {
            assert(s[i] == "snippet "@[i]);
        } else {
            assert(s[i] == prefix[i - 8]);
        }
    }
    lemma_replace_char_absent(s, '"', Seq::empty());
    assert(header_spec(prefix, None) == s + seq!['\n']);
    assert(s + seq!['\n'] =~= "snippet "@ + prefix + seq!['\n']);
}

/// A clean prefix splits as a single token.
proof fn lemma_prefix_token(prefix: Seq<char>)
    requires
        clean_prefix(prefix),
    ensures
        split_blanks_spec(prefix) == seq![prefix],
{
    lemma_token_len_boundary(prefix, prefix.len() as int);
    assert(!is_blank(prefix[0]));
    assert(split_blanks_spec(prefix) == seq![prefix.take(prefix.len() as int)]
        + split_blanks_spec(prefix.skip(prefix.len() as int)));
    assert(prefix.take(prefix.len() as int) =~= prefix);
    assert(prefix.skip(prefix.len() as int) =~= Seq::<char>::empty());
    assert(split_blanks_spec(Seq::<char>::empty()) =~= Seq::<Seq<char>>::empty());
    assert(split_blanks_spec(prefix) =~= seq![prefix]);
}

/// A clean header line is recognized as one, and starts exactly the bare
/// record with that prefix.
proof fn lemma_header_record_clean(prefix: Seq<char>)
    requires
        clean_prefix(prefix),
    ensures
        is_header_line("snippet "@ + prefix),
        header_record("snippet "@ + prefix) == (SnipmateView {
            prefix,
            body: Seq::empty(),
            description: None,
        }),
{
    reveal_strlit("snippet ");
    let s = "snippet "@ + prefix;
    assert(matches_header_at(s, 0)) by {
        assert forall|j: int| 0 <= j < 8 implies eq_ci(s[j], header_pat()[j]) by {
            assert(s[j] == "snippet "@[j]);
        }
    }
    assert(s.len() == 8 + prefix.len());
    assert(header_scan(s, 0) == Some(0int));
    assert(s.skip(8) =~= prefix);
    lemma_prefix_token(prefix);
    let toks = split_blanks_spec(prefix);
    assert(toks.len() == 1);
    assert(toks[0] == prefix);
    assert(toks.skip(1) =~= Seq::<Seq<char>>::empty());
    assert(join_spec(Seq::<Seq<char>>::empty(), ' ') == Seq::<char>::empty());
    assert(replace_pair_spec(Seq::<char>::empty(), '\\', '"', seq!['"']) =~= Seq::<
        char,
    >::empty());
    assert(strip_edges_spec(Seq::<char>::empty(), '"') =~= Seq::<char>::empty());
    assert(header_record(s) =~~= SnipmateView { prefix, body: Seq::empty(), description: None });
}

/// Round trip through the text itself: a record with a clean prefix, no
/// description, and body lines free of escapes that do not themselves look
/// like header lines renders as its header line followed by tab-prefixed
/// body lines — and parsing those lines back yields exactly one record:
/// the same prefix, no description, and each body line behind the leading
/// tab the renderer put there.
pub proof fn lemma_display_lines_round_trip(prefix: Seq<char>, body: Seq<Seq<char>>)
    requires
        clean_prefix(prefix),
        forall|k: int|
            0 <= k < body.len() ==> clean_line(#[trigger] body[k]) && !is_header_line(
                tabbed(body[k]),
            ),
    ensures
        display_spec(SnipmateView { prefix, body, description: None }) == "snippet "@ + prefix
            + seq!['\n'] + render_lines(body),
        parse_lines_spec(seq!["snippet "@ + prefix] + tabbed_lines(body)) == Some(
            seq![SnipmateView { prefix, body: tabbed_lines(body), description: None }],
        ),
    decreases body.len(),
{
    lemma_clean_header(prefix);
    let rec = SnipmateView { prefix, body, description: None };
    assert(display_spec(rec) == header_spec(prefix, None) + render_lines(body));
    assert(("snippet "@ + prefix + seq!['\n']) + render_lines(body) =~= "snippet "@ + prefix
        + seq!['\n'] + render_lines(body));

    let s = "snippet "@ + prefix;
    if body.len() == 0 {
        let lines = seq![s] + tabbed_lines(body);
        assert(tabbed_lines(body) =~= Seq::<Seq<char>>::empty());
        assert(lines =~= seq![s]);
        assert(lines.drop_last() =~= Seq::<Seq<char>>::empty());
        assert(parse_lines_spec(Seq::<Seq<char>>::empty()) == Some(Seq::<SnipmateView>::empty()));
        assert(lines.last() == s);
        lemma_header_record_clean(prefix);
        assert(parse_lines_spec(lines) == Some(
            Seq::<SnipmateView>::empty().push(header_record(s)),
        ));
        assert(Seq::<SnipmateView>::empty().push(header_record(s)) =~= seq![SnipmateView {
            prefix,
            body: tabbed_lines(body),
            description: None,
        }]);
    } else {
        let d = body.drop_last();
        assert forall|k: int|
            0 <= k < d.len() implies clean_line(#[trigger] d[k]) && !is_header_line(
            tabbed(d[k]),
        ) by {
            assert(d[k] == body[k]);
        }
        lemma_display_lines_round_trip(prefix, d);
        let lines_d = seq![s] + tabbed_lines(d);
        let lines = seq![s] + tabbed_lines(body);
        assert(lines.len() == 1 + body.len());
        assert(lines.drop_last() =~= lines_d);
        assert(lines.last() == tabbed_lines(body)[body.len() - 1]);
        assert(tabbed_lines(body)[body.len() - 1] == tabbed(body.last()));
        let l = tabbed(body.last());
        assert(!is_header_line(l));
        let rec_d = SnipmateView { prefix, body: tabbed_lines(d), description: None };
        assert(parse_lines_spec(lines_d) == Some(seq![rec_d]));
        assert forall|i: int| 0 <= i < l.len() implies l[i] != '\\' by {
            if i == 0 {
                assert(l[0] == '\t');
            } else {
                assert(l[i] == body.last()[i - 1]);
                assert(clean_line(body.last()));
            }
        }
        lemma_replace_pair_absent(l, '\\', 't', seq![' ', ' ']);
        assert(parsed_body_line(l) == l);
        let rec_n = SnipmateView { prefix, body: tabbed_lines(body), description: None };
        assert(seq![rec_d].len() == 1);
        assert(seq![rec_d].last() == rec_d);
        assert(rec_d.body.push(l) =~= tabbed_lines(body));
        assert(SnipmateView { body: rec_d.body.push(parsed_body_line(l)), ..rec_d } =~~= rec_n);
        assert(seq![rec_d].update(0, SnipmateView {
            body: rec_d.body.push(parsed_body_line(l)),
            ..rec_d
        }) =~= seq![rec_n]);
        assert(parse_lines_spec(lines) == Some(seq![rec_n]));
    }
}

} // verus!
