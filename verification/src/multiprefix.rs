//! The multi-prefix variant of the JSON snippet table: every record's
//! trigger is a list of one or more prefixes, read from either a bare
//! string or an array of strings.

use vstd::prelude::*;
use vstd::string::StrSliceExecFns;
use vstd::string::StringExecFns;

use crate::errors::TektonError;
use crate::json::field_of;
use crate::json::get_field;
use crate::json::json_of;
use crate::json::json_str_or_empty;
use crate::json::parse_json;
use crate::json::str_of;
use crate::json::JsonValue;
use crate::lenient::body_of;
use crate::lenient::malformed_json_msg;
use crate::lenient::retrieve_body;
use crate::render::append_pretty_str_array;
use crate::render::append_quoted;
use crate::render::pretty_str_array_spec;
use crate::render::quoted_spec;
use crate::sorting::sort_entries;
use crate::sorting::sort_entries_spec;
use crate::table::insert_entry;
use crate::table::Table;
use crate::text::append_lit;
use crate::text::string_from_chars;

verus! {

/// The ghost shape of a multi-prefix record.
#[verifier::ext_equal]
pub struct MultiBodyView {
    /// The triggers, in order.
    pub prefix: Seq<Seq<char>>,
    /// The lines of the snippet.
    pub body: Seq<Seq<char>>,
    /// The explanation, when present.
    pub description: Option<Seq<char>>,
}

/// A record of the multi-prefix snippet table.
#[derive(Debug, PartialEq, Eq, Clone)]
pub struct MultiBody {
    /// The triggers for the snippet, in order.
    pub prefix: Vec<String>,
    /// The lines of the snippet, in order.
    pub body: Vec<String>,
    /// An optional explanation of the snippet.
    pub description: Option<String>,
}

impl View for MultiBody {
    type V = MultiBodyView;

    open spec fn view(&self) -> MultiBodyView {
        MultiBodyView {
            prefix: self.prefix.deep_view(),
            body: self.body.deep_view(),
            description: self.description.deep_view(),
        }
    }
}

impl MultiBody {
    /// A record with the given fields; the description is always kept, even
    /// when empty.
    pub fn new(prefix: Vec<String>, body: Vec<String>, description: String) -> (r: MultiBody)
        ensures
            r@.prefix == prefix.deep_view(),
            r@.body == body.deep_view(),
            r@.description == Some(description@),
    {
        MultiBody { prefix, body, description: Some(description) }
    }
}

/// The multi-prefix snippet table, keyed by display name.
pub struct MultiPrefixTable {
    /// The mapping from display name to record.
    pub snippets: Table<MultiBody>,
}

impl View for MultiPrefixTable {
    type V = Seq<(Seq<char>, MultiBodyView)>;

    open spec fn view(&self) -> Seq<(Seq<char>, MultiBodyView)> {
        self.snippets@
    }
}

impl MultiPrefixTable {
    /// Every key appears in at most one entry.
    pub open spec fn wf(&self) -> bool {
        self.snippets.wf()
    }
}

/// The strings among the array's elements, in order.
pub open spec fn str_elems_of(elems: Seq<JsonValue>) -> Seq<Seq<char>>
    decreases elems.len(),
{
    if elems.len() == 0 {
        Seq::empty()
    } else {
        let rest = str_elems_of(elems.drop_last());
        match elems.last() {
            JsonValue::Str(s) => rest.push(s@),
            _ => rest,
        }
    }
}

/// The trigger list a JSON prefix value stands for: an array keeps its
/// string elements, a bare string becomes a one-element list, anything else
/// is unusable.
pub open spec fn multi_prefix_of(v: JsonValue) -> Option<Seq<Seq<char>>> {
    match v {
        JsonValue::Arr(elems) => Some(str_elems_of(elems@)),
        JsonValue::Str(s) => Some(seq![s@]),
        _ => None,
    }
}

/// Coerces a JSON value to a trigger list, as [`multi_prefix_of`] says.
fn retrieve_prefix(val: &JsonValue) -> (r: Option<Vec<String>>)
    ensures
        match multi_prefix_of(*val) {
            Some(ps) => r matches Some(v) && v.deep_view() == ps,
            None => r is None,
        },
{
    match val {
        JsonValue::Str(s) => {
            let mut out: Vec<String> = Vec::new();
            out.push(s.clone());
            proof {
                assert(out.deep_view() =~= seq![s@]);
            }
            Some(out)
        },
        JsonValue::Arr(elems) => {
            let mut out: Vec<String> = Vec::new();
            let mut i: usize = 0;
            proof {
                assert(elems@.take(0) =~= Seq::<JsonValue>::empty());
                assert(out.deep_view() =~= str_elems_of(elems@.take(0)));
            }
            while i < elems.len()
                invariant
                    i <= elems@.len(),
                    out.deep_view() == str_elems_of(elems@.take(i as int)),
                decreases elems@.len() - i,
            {
                let ghost prev = out.deep_view();
                match &elems[i] {
                    JsonValue::Str(s) => {
                        out.push(s.clone());
                        proof {
                            assert(out.deep_view() =~~= prev.push(s@));
                        }
                    },
                    _ => {},
                }
                i = i + 1;
                proof {
                    assert(elems@.take(i as int).drop_last() =~= elems@.take(i - 1));
                    assert(elems@.take(i as int).last() == elems@[i - 1]);
                    assert(out.deep_view() =~~= str_elems_of(elems@.take(i as int)));
                }
            }
            proof {
                assert(elems@.take(elems@.len() as int) =~= elems@);
            }
            Some(out)
        },
        _ => None,
    }
}

/// The record a JSON object entry stands for in the multi-prefix table,
/// when its prefix is usable; the description is attached only when it is a
/// non-empty string.
pub open spec fn multi_view_of(v: JsonValue) -> Option<MultiBodyView> {
    match multi_prefix_of(field_of(v, "prefix"@)) {
        Some(ps) => Some(
            MultiBodyView {
                prefix: ps,
                body: body_of(field_of(v, "body"@)),
                description: if str_of(field_of(v, "description"@)).len() > 0 {
                    Some(str_of(field_of(v, "description"@)))
                } else {
                    None
                },
            },
        ),
        None => None,
    }
}

/// The multi-prefix table the parsed entries stand for, inserted in the
/// order they arrive, or the name of the first record whose prefix is
/// unusable.
pub open spec fn multi_table_spec(entries: Seq<(String, JsonValue)>) -> Result<
    Seq<(Seq<char>, MultiBodyView)>,
    Seq<char>,
>
    decreases entries.len(),
{
    if entries.len() == 0 {
        Ok(Seq::empty())
    } else {
        match multi_table_spec(entries.drop_last()) {
            Err(n) => Err(n),
            Ok(prev) => {
                let e = entries.last();
                match multi_view_of(e.1) {
                    Some(bv) => Ok(insert_entry(prev, e.0@, bv)),
                    None => Err(e.0@),
                }
            },
        }
    }
}

/// Once a record has failed, any longer document fails on the same name.
proof fn lemma_multi_error_persists(entries: Seq<(String, JsonValue)>, i: int)
    requires
        0 <= i <= entries.len(),
        multi_table_spec(entries.take(i)) is Err,
    ensures
        multi_table_spec(entries) == multi_table_spec(entries.take(i)),
    decreases entries.len() - i,
{
    if i < entries.len() {
        assert(entries.take(i + 1).drop_last() =~= entries.take(i));
        lemma_multi_error_persists(entries, i + 1);
    } else {
        assert(entries.take(i) =~= entries);
    }
}

/// The message naming the record whose prefix could not be used.
pub open spec fn multi_fail_msg(name: Seq<char>) -> Seq<char> {
    "Failed on snippet ---> "@ + name
        + " | Check source file, not possible to construct snippet."@
}

/// Reads a JSON snippet table whose records may carry one or many trigger
/// prefixes: a bare string and an array of strings are both accepted, and a
/// record with any other prefix shape fails the load, named in the error.
pub fn dynamic_prefix_combinator(file_content: &str) -> (r: Result<MultiPrefixTable, TektonError>)
    ensures
        json_of(file_content@) is None ==> (r matches Err(e) && e matches TektonError::Reason(m)
            && m@ == malformed_json_msg()),
        (json_of(file_content@) matches Some(v) && !(v is Obj)) ==> (r matches Ok(t) && t@
            == Seq::<(Seq<char>, MultiBodyView)>::empty() && t.wf()),
        json_of(file_content@) matches Some(JsonValue::Obj(es)) ==> (match multi_table_spec(es@) {
            Ok(m) => r matches Ok(t) && t@ == m && t.wf(),
            Err(name) => r matches Err(e) && e matches TektonError::Reason(msg) && msg@
                == multi_fail_msg(name),
        }),
{
    let parsed = parse_json(file_content);
    match parsed {
        None => Err(
            TektonError::Reason(String::from_str("Unable to parse the file as JSON. Aborting.")),
        ),
        Some(v) => {
            match v {
                JsonValue::Obj(mut entries) => {
                    let ghost es0 = entries@;
                    let ghost n = es0.len();
                    let mut snippets: Table<MultiBody> = Table::new();
                    proof {
                        assert(es0.take(0) =~= Seq::<(String, JsonValue)>::empty());
                    }
                    while entries.len() > 0
                        invariant
                            json_of(file_content@) matches Some(JsonValue::Obj(ev)) && ev@ == es0,
                            entries@.len() <= n,
                            n == es0.len(),
                            forall|k: int|
                                0 <= k < entries@.len() ==> (#[trigger] entries@[k]) == es0[k + (n
                                    - entries@.len())],
                            multi_table_spec(es0.take(n - entries@.len())) == Ok::<_, Seq<char>>(
                                snippets@,
                            ),
                            snippets.wf(),
                        decreases entries@.len(),
                    {
                        let ghost i = n - entries@.len();
                        let ghost ents_before = entries@;
                        let e = entries.remove(0);
                        proof {
                            assert(e == es0[i]);
                            assert(entries@ =~= ents_before.skip(1));
                            assert forall|k: int|
                                0 <= k < entries@.len() implies (#[trigger] entries@[k]) == es0[k
                                    + (n - entries@.len())] by {
                                assert(entries@[k] == ents_before[k + 1]);
                            }
                            assert(es0.take(i + 1).drop_last() =~= es0.take(i));
                            assert(es0.take(i + 1).last() == es0[i]);
                        }
                        let name = e.0;
                        let pref = match get_field(&e.1, "prefix") {
                            Some(pv) => retrieve_prefix(pv),
                            None => None,
                        };
                        proof {
                            match multi_prefix_of(field_of(e.1, "prefix"@)) {
                                Some(ps) => {
                                    assert(pref matches Some(pl) && pl.deep_view() == ps);
                                },
                                None => {
                                    assert(pref is None);
                                },
                            }
                        }
                        match pref {
                            Some(prefix) => {
                                let body = match get_field(&e.1, "body") {
                                    Some(b) => retrieve_body(b),
                                    None => {
                                        let nul = JsonValue::Null;
                                        let b = retrieve_body(&nul);
                                        proof {
                                            assert(body_of(JsonValue::Null) =~= body_of(
                                                field_of(e.1, "body"@),
                                            ));
                                        }
                                        b
                                    },
                                };
                                let description: Option<String> = match get_field(
                                    &e.1,
                                    "description",
                                ) {
                                    Some(d) => {
                                        let text = json_str_or_empty(d);
                                        if text.as_str().unicode_len() > 0 {
                                            Some(text)
                                        } else {
                                            None
                                        }
                                    },
                                    None => None,
                                };
                                let snip_body = MultiBody { prefix, body, description };
                                proof {
                                    assert(snip_body@ =~~= multi_view_of(e.1)->0);
                                }
                                snippets.insert(name, snip_body);
                                proof {
                                    assert(multi_table_spec(es0.take(i + 1)) == Ok::<
                                        _,
                                        Seq<char>,
                                    >(snippets@));
                                }
                            },
                            None => {
                                proof {
                                    assert(multi_view_of(e.1) is None);
                                    assert(multi_table_spec(es0.take(i + 1)) == Err::<
                                        Seq<(Seq<char>, MultiBodyView)>,
                                        _,
                                    >(es0[i].0@));
                                    lemma_multi_error_persists(es0, i + 1);
                                }
                                let mut message = String::from_str("Failed on snippet ---> ");
                                message.append(name.as_str());
                                message.append(
                                    " | Check source file, not possible to construct snippet.",
                                );
                                return Err(TektonError::Reason(message));
                            },
                        }
                    }
                    proof {
                        assert(es0.take(n as int) =~= es0);
                    }
                    Ok(MultiPrefixTable { snippets })
                },
                _ => {
                    Ok(MultiPrefixTable { snippets: Table::new() })
                },
            }
        },
    }
}

/// A multi-prefix record as a pretty-printed JSON object: the `prefix`
/// array, the `body` array, and an optional `description` string.
pub open spec fn pretty_multi_body_spec(
    b: MultiBodyView,
    pad: Seq<char>,
    close_pad: Seq<char>,
) -> Seq<char> {
    let head = seq!['{', '\n'] + pad + "\"prefix\": "@ + pretty_str_array_spec(
        b.prefix,
        pad + "  "@,
        pad,
    ) + seq![',', '\n'] + pad + "\"body\": "@ + pretty_str_array_spec(b.body, pad + "  "@, pad);
    let fields = match b.description {
        Some(d) => head + seq![',', '\n'] + pad + "\"description\": "@ + quoted_spec(d),
        None => head,
    };
    fields + seq!['\n'] + close_pad + seq!['}']
}

/// Appends a pretty-printed multi-prefix record to `buf`.
#[verifier::rlimit(60)]
fn append_pretty_multi_body(
    buf: &mut Vec<char>,
    b: &MultiBody,
    pad: &str,
    inner_pad: &str,
    close_pad: &str,
)
    requires
        inner_pad@ == pad@ + "  "@,
    ensures
        final(buf)@ == old(buf)@ + pretty_multi_body_spec(b@, pad@, close_pad@),
{
    let ghost start = old(buf)@;
    buf.push('{');
    buf.push('\n');
    append_lit(buf, pad);
    append_lit(buf, "\"prefix\": ");
    append_pretty_str_array(buf, &b.prefix, inner_pad, pad);
    buf.push(',');
    buf.push('\n');
    append_lit(buf, pad);
    append_lit(buf, "\"body\": ");
    append_pretty_str_array(buf, &b.body, inner_pad, pad);
    let ghost head = start + seq!['{', '\n'] + pad@ + "\"prefix\": "@ + pretty_str_array_spec(
        b@.prefix,
        pad@ + "  "@,
        pad@,
    ) + seq![',', '\n'] + pad@ + "\"body\": "@ + pretty_str_array_spec(b@.body, pad@ + "  "@, pad@);
    proof {
        assert(buf@ =~= head);
    }
    match &b.description {
        Some(d) => {
            buf.push(',');
            buf.push('\n');
            append_lit(buf, pad);
            append_lit(buf, "\"description\": ");
            append_quoted(buf, d.as_str());
            proof {
                assert(buf@ =~= head + seq![',', '\n'] + pad@ + "\"description\": "@ + quoted_spec(
                    b@.description->0,
                ));
            }
        },
        None => {},
    }
    let ghost with_desc = buf@;
    buf.push('\n');
    append_lit(buf, close_pad);
    buf.push('}');
    proof {
        assert(buf@ =~= with_desc + seq!['\n'] + close_pad@ + seq!['}']);
        assert(buf@ =~= start + pretty_multi_body_spec(b@, pad@, close_pad@));
    }
}

/// The entries of a pretty multi-prefix table after the first.
pub open spec fn multi_table_rest_spec(entries: Seq<(Seq<char>, MultiBodyView)>) -> Seq<char>
    decreases entries.len(),
{
    if entries.len() == 0 {
        Seq::empty()
    } else {
        seq![',', '\n'] + "  "@ + quoted_spec(entries[0].0) + ": "@ + pretty_multi_body_spec(
            entries[0].1,
            "    "@,
            "  "@,
        ) + multi_table_rest_spec(entries.skip(1))
    }
}

/// A whole multi-prefix table as one pretty-printed JSON object, entries in
/// the order given.
pub open spec fn pretty_multi_table_spec(entries: Seq<(Seq<char>, MultiBodyView)>) -> Seq<char> {
    if entries.len() == 0 {
        seq!['{', '}']
    } else {
        seq!['{', '\n'] + "  "@ + quoted_spec(entries[0].0) + ": "@ + pretty_multi_body_spec(
            entries[0].1,
            "    "@,
            "  "@,
        ) + multi_table_rest_spec(entries.skip(1)) + seq!['\n', '}']
    }
}

/// What the sorted rendering of a multi-prefix table is.
pub open spec fn sorted_multi_render_spec(m: Seq<(Seq<char>, MultiBodyView)>) -> Seq<char> {
    pretty_multi_table_spec(sort_entries_spec(m))
}

/// Renders a multi-prefix table as JSON text with its keys in
/// case-insensitive sorted order; an empty table is refused.
#[verifier::rlimit(60)]
pub fn order_friendly_snippets(snippets: MultiPrefixTable) -> (r: Result<String, TektonError>)
    ensures
        snippets@.len() == 0 <==> (r matches Err(e) && e matches TektonError::Reason(m) && m@
            == crate::render::empty_table_msg()),
        snippets@.len() > 0 ==> (r matches Ok(s) && s@ == sorted_multi_render_spec(snippets@)),
{
    let ghost tv = snippets@;
    if snippets.snippets.is_empty() {
        return Err(TektonError::Reason(String::from_str("Refusing to build string for 0 snippets")));
    }
    let entries = snippets.snippets.into_entries();
    proof {
        assert(crate::sorting::entry_views(entries@) =~= tv);
    }
    let sorted = sort_entries(entries);
    let ghost sv = crate::sorting::entry_views(sorted@);
    proof {
        crate::sorting::lemma_sort_entries_sorted(tv);
        assert(sv.len() == tv.len());
        assert(sorted@.len() == sv.len());
    }
    let mut buf: Vec<char> = Vec::new();
    proof {
        reveal_strlit("    ");
        reveal_strlit("      ");
        reveal_strlit("  ");
        assert("      "@ =~= "    "@ + "  "@);
    }
    buf.push('{');
    buf.push('\n');
    append_lit(&mut buf, "  ");
    append_quoted(&mut buf, sorted[0].0.as_str());
    append_lit(&mut buf, ": ");
    append_pretty_multi_body(&mut buf, &sorted[0].1, "    ", "      ", "  ");
    proof {
        assert(sv[0] == (sorted@[0].0@, sorted@[0].1@));
        assert(buf@ =~= seq!['{', '\n'] + "  "@ + quoted_spec(sv[0].0) + ": "@
            + pretty_multi_body_spec(sv[0].1, "    "@, "  "@));
    }
    let ghost head = buf@;
    let mut i: usize = 1;
    proof {
        assert(sv.skip(1).skip(0) =~= sv.skip(1));
        assert(head + Seq::<char>::empty() =~= head);
    }
    while i < sorted.len()
        invariant
            1 <= i <= sorted@.len(),
            sv == crate::sorting::entry_views(sorted@),
            sv.len() == sorted@.len(),
            forall|k: int|
                0 <= k < sv.len() ==> (#[trigger] sv[k]) == (sorted@[k].0@, sorted@[k].1@),
            head + multi_table_rest_spec(sv.skip(1)) == buf@ + multi_table_rest_spec(
                sv.skip(i as int),
            ),
        decreases sorted@.len() - i,
    {
        let ghost prev = buf@;
        proof {
            reveal_strlit("    ");
            reveal_strlit("      ");
            reveal_strlit("  ");
            assert("      "@ =~= "    "@ + "  "@);
        }
        buf.push(',');
        buf.push('\n');
        append_lit(&mut buf, "  ");
        append_quoted(&mut buf, sorted[i].0.as_str());
        append_lit(&mut buf, ": ");
        append_pretty_multi_body(&mut buf, &sorted[i].1, "    ", "      ", "  ");
        i = i + 1;
        proof {
            assert(buf@ =~= prev + (seq![',', '\n'] + "  "@ + quoted_spec(sv[i - 1].0) + ": "@
                + pretty_multi_body_spec(sv[i - 1].1, "    "@, "  "@)));
            assert(sv.skip(i - 1).skip(1) =~= sv.skip(i as int));
            assert(prev + (seq![',', '\n'] + "  "@ + quoted_spec(sv[i - 1].0) + ": "@
                + pretty_multi_body_spec(sv[i - 1].1, "    "@, "  "@) + multi_table_rest_spec(
                sv.skip(i as int),
            )) =~= buf@ + multi_table_rest_spec(sv.skip(i as int)));
        }
    }
    buf.push('\n');
    buf.push('}');
    proof {
        assert(sv.skip(sv.len() as int) =~= Seq::<(Seq<char>, MultiBodyView)>::empty());
        assert(buf@ =~= pretty_multi_table_spec(sv));
    }
    Ok(string_from_chars(&buf))
}

} // verus!
