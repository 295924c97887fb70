//! Loading the JSON snippet table from text: a strict pass that accepts only
//! the expected record shape, and a lenient pass that coerces mismatched
//! field shapes and queues records that still lack a trigger prefix.

use vstd::prelude::*;
use vstd::string::StringExecFns;

use crate::errors::TektonError;
use crate::friendly::FriendlyBodyView;
use crate::friendly::FriendlySnippetBody;
use crate::friendly::FriendlySnippets;
use crate::json::as_str_opt;
use crate::json::field_of;
use crate::json::get_field;
use crate::json::json_of;
use crate::json::json_str_or_empty;
use crate::json::parse_json;
use crate::json::str_of;
use crate::json::JsonValue;
use crate::sorting::entry_views;
use crate::table::insert_entry;

verus! {

/// The message returned when the text is not valid JSON.
pub open spec fn malformed_json_msg() -> Seq<char> {
    "Unable to parse the file as JSON. Aborting."@
}

/// The message returned when a record lacks a prefix and nobody is there to
/// supply one.
pub open spec fn missing_prefix_msg() -> Seq<char> {
    "File contains snippets with missing prefix field(s). Aborting."@
}

/// The body lines a JSON value stands for: an array contributes the string
/// of each element, any other value is wrapped as a single line.
pub open spec fn body_of(v: JsonValue) -> Seq<Seq<char>> {
    match v {
        JsonValue::Arr(elems) => elems@.map_values(|e: JsonValue| str_of(e)),
        _ => seq![str_of(v)],
    }
}

/// Coerces a JSON value to body lines, as [`body_of`] says.
pub fn retrieve_body(val: &JsonValue) -> (r: Vec<String>)
    ensures
        r.deep_view() == body_of(*val),
{
    match val {
        JsonValue::Arr(elems) => {
            let mut out: Vec<String> = Vec::new();
            let mut i: usize = 0;
            while i < elems.len()
                invariant
                    i <= elems@.len(),
                    out@.len() == i,
                    forall|k: int| 0 <= k < i ==> (#[trigger] out@[k])@ == str_of(elems@[k]),
                decreases elems@.len() - i,
            {
                out.push(json_str_or_empty(&elems[i]));
                i = i + 1;
            }
            proof {
                assert(out.deep_view() =~= body_of(*val));
            }
            out
        },
        _ => {
            let mut out: Vec<String> = Vec::new();
            out.push(json_str_or_empty(val));
            proof {
                assert(out.deep_view() =~= body_of(*val));
            }
            out
        },
    }
}

/// The record a JSON object entry stands for under lenient rules: the body
/// coerced to lines, the description kept only when it is a non-empty
/// string, the prefix kept when it is a string.
pub open spec fn lenient_view_of(v: JsonValue) -> FriendlyBodyView {
    FriendlyBodyView {
        prefix: as_str_opt(field_of(v, "prefix"@)),
        body: body_of(field_of(v, "body"@)),
        description: match as_str_opt(field_of(v, "description"@)) {
            Some(d) => if d.len() > 0 {
                Some(d)
            } else {
                None
            },
            None => None,
        },
    }
}

/// The completed records of a lenient load, inserted in the order the
/// parsed entries arrive (the parser's map yields them sorted by name).
pub open spec fn lenient_table_spec(entries: Seq<(String, JsonValue)>) -> Seq<
    (Seq<char>, FriendlyBodyView),
>
    decreases entries.len(),
{
    if entries.len() == 0 {
        Seq::empty()
    } else {
        let prev = lenient_table_spec(entries.drop_last());
        let e = entries.last();
        let bv = lenient_view_of(e.1);
        if bv.prefix is Some {
            insert_entry(prev, e.0@, bv)
        } else {
            prev
        }
    }
}

/// The records that still lack a prefix, in the order the parsed entries
/// arrive.
pub open spec fn lenient_missing_spec(entries: Seq<(String, JsonValue)>) -> Seq<
    (Seq<char>, FriendlyBodyView),
>
    decreases entries.len(),
{
    if entries.len() == 0 {
        Seq::empty()
    } else {
        let prev = lenient_missing_spec(entries.drop_last());
        let e = entries.last();
        let bv = lenient_view_of(e.1);
        if bv.prefix is None {
            prev.push((e.0@, bv))
        } else {
            prev
        }
    }
}

/// Growing the document can only grow the list of incomplete records.
proof fn lemma_missing_monotone(entries: Seq<(String, JsonValue)>, i: int)
    requires
        0 <= i <= entries.len(),
    ensures
        lenient_missing_spec(entries.take(i)).len() <= lenient_missing_spec(entries).len(),
    decreases entries.len() - i,
{
    if i < entries.len() {
        assert(entries.take(i + 1).drop_last() =~= entries.take(i));
        lemma_missing_monotone(entries, i + 1);
    } else {
        assert(entries.take(i) =~= entries);
    }
}

/// What a lenient load hands back: the completed table, and the records
/// still waiting for a prefix, to be corrected and inserted afterwards.
pub struct LenientLoad {
    /// The table of records that arrived complete.
    pub snippets: FriendlySnippets,
    /// The named records that still lack a prefix, in the order they
    /// arrived.
    pub to_fix: Vec<(String, FriendlySnippetBody)>,
}

/// Builds the record a JSON object entry stands for under lenient rules.
fn lenient_record(v: &JsonValue) -> (r: FriendlySnippetBody)
    ensures
        r@ == lenient_view_of(*v),
{
    let body: Vec<String> = match get_field(v, "body") {
        Some(b) => retrieve_body(b),
        None => {
            let nul = JsonValue::Null;
            let b = retrieve_body(&nul);
            proof {
                assert(body_of(JsonValue::Null) =~= body_of(field_of(*v, "body"@)));
            }
            b
        },
    };
    let description: Option<String> = match get_field(v, "description") {
        Some(d) => {
            match d {
                JsonValue::Str(s) => {
                    if s.as_str().unicode_len() > 0 {
                        Some(s.clone())
                    } else {
                        None
                    }
                },
                _ => None,
            }
        },
        None => None,
    };
    let prefix: Option<String> = match get_field(v, "prefix") {
        Some(p) => {
            match p {
                JsonValue::Str(s) => Some(s.clone()),
                _ => None,
            }
        },
        None => None,
    };
    let r = FriendlySnippetBody { prefix, body, description };
    proof {
        assert(r@ =~~= lenient_view_of(*v));
    }
    r
}

/// Loads an already-parsed document leniently, as
/// [`dynamically_read_json_snippets`] does.
pub fn load_lenient_value(v: JsonValue, interactive: bool) -> (r: Result<
    LenientLoad,
    TektonError,
>)
    ensures
        !(v is Obj) ==> (r matches Ok(l) && l.snippets@ == Seq::<
            (Seq<char>, FriendlyBodyView),
        >::empty() && l.to_fix@.len() == 0 && l.snippets.wf()),
        v matches JsonValue::Obj(es) ==> {
            if !interactive && lenient_missing_spec(es@).len() > 0 {
                r matches Err(e) && e matches TektonError::Reason(m) && m@ == missing_prefix_msg()
            } else {
                r matches Ok(l) && l.snippets@ == lenient_table_spec(es@) && l.snippets.wf()
                    && entry_views(l.to_fix@) == lenient_missing_spec(es@) && (!interactive
                    ==> l.to_fix@.len() == 0)
            }
        },
{
    match v {
        JsonValue::Obj(mut entries) => {
            let ghost es0 = entries@;
            let ghost n = es0.len();
            let mut snippets = FriendlySnippets::new();
            let mut to_fix: Vec<(String, FriendlySnippetBody)> = Vec::new();
            proof {
                assert(es0.take(0) =~= Seq::<(String, JsonValue)>::empty());
                assert(entry_views(to_fix@) =~= Seq::<(Seq<char>, FriendlyBodyView)>::empty());
            }
            while entries.len() > 0
                invariant
                    v matches JsonValue::Obj(ev) && ev@ == es0,
                    entries@.len() <= n,
                    n == es0.len(),
                    forall|k: int|
                        0 <= k < entries@.len() ==> (#[trigger] entries@[k]) == es0[k + (n
                            - entries@.len())],
                    snippets@ == lenient_table_spec(es0.take(n - entries@.len())),
                    snippets.wf(),
                    entry_views(to_fix@) == lenient_missing_spec(es0.take(n - entries@.len())),
                    !interactive ==> to_fix@.len() == 0,
                decreases entries@.len(),
            {
                let ghost i = n - entries@.len();
                let ghost ents_before = entries@;
                let e = entries.remove(0);
                proof {
                    assert(e == es0[i]);
                    assert(entries@ =~= ents_before.skip(1));
                    assert forall|k: int|
                        0 <= k < entries@.len() implies (#[trigger] entries@[k]) == es0[k + (n
                            - entries@.len())] by {
                        assert(entries@[k] == ents_before[k + 1]);
                    }
                    assert(es0.take(i + 1).drop_last() =~= es0.take(i));
                    assert(es0.take(i + 1).last() == es0[i]);
                }
                let name = e.0;
                let body = lenient_record(&e.1);
                let ghost bv = lenient_view_of(e.1);
                match &body.prefix {
                    Some(_) => {
                        proof {
                            assert(bv.prefix is Some);
                        }
                        snippets.snippets.insert(name, body);
                        proof {
                            assert(snippets@ == lenient_table_spec(es0.take(i + 1)));
                            assert(entry_views(to_fix@) == lenient_missing_spec(es0.take(i + 1)));
                        }
                    },
                    None => {
                        proof {
                            assert(bv.prefix is None);
                        }
                        if interactive {
                            let ghost fixes0 = entry_views(to_fix@);
                            to_fix.push((name, body));
                            proof {
                                assert(entry_views(to_fix@) =~= fixes0.push((es0[i].0@, bv)));
                                assert(entry_views(to_fix@) == lenient_missing_spec(
                                    es0.take(i + 1),
                                ));
                                assert(snippets@ == lenient_table_spec(es0.take(i + 1)));
                            }
                        } else {
                            proof {
                                assert(lenient_missing_spec(es0.take(i + 1)).len() > 0);
                                lemma_missing_monotone(es0, i + 1);
                            }
                            return Err(
                                TektonError::Reason(
                                    String::from_str(
                                        "File contains snippets with missing prefix field(s). Aborting.",
                                    ),
                                ),
                            );
                        }
                    },
                }
            }
            proof {
                assert(es0.take(n as int) =~= es0);
            }
            Ok(LenientLoad { snippets, to_fix })
        },
        _ => {
            Ok(LenientLoad { snippets: FriendlySnippets::new(), to_fix: Vec::new() })
        },
    }
}

/// Reads a JSON snippet table leniently.
///
/// Every record's body is coerced to lines; a record whose prefix is absent
/// is queued for correction when `interactive` is set, and refused with
/// [`missing_prefix_msg`] otherwise — one such record fails the whole load,
/// however many others are well-formed.
pub fn dynamically_read_json_snippets(file: &str, interactive: bool) -> (r: Result<
    LenientLoad,
    TektonError,
>)
    ensures
        json_of(file@) is None ==> (r matches Err(e) && e matches TektonError::Reason(m) && m@
            == malformed_json_msg()),
        (json_of(file@) matches Some(v) && !(v is Obj)) ==> (r matches Ok(l) && l.snippets@
            == Seq::<(Seq<char>, FriendlyBodyView)>::empty() && l.to_fix@.len() == 0
            && l.snippets.wf()),
        json_of(file@) matches Some(JsonValue::Obj(es)) ==> {
            if !interactive && lenient_missing_spec(es@).len() > 0 {
                r matches Err(e) && e matches TektonError::Reason(m) && m@ == missing_prefix_msg()
            } else {
                r matches Ok(l) && l.snippets@ == lenient_table_spec(es@) && l.snippets.wf()
                    && entry_views(l.to_fix@) == lenient_missing_spec(es@) && (!interactive
                    ==> l.to_fix@.len() == 0)
            }
        },
{
    match parse_json(file) {
        None => Err(
            TektonError::Reason(String::from_str("Unable to parse the file as JSON. Aborting.")),
        ),
        Some(v) => load_lenient_value(v, interactive),
    }
}

/// Whether every element of the array is a string.
pub open spec fn all_strings(elems: Seq<JsonValue>) -> bool {
    forall|i: int| 0 <= i < elems.len() ==> (#[trigger] elems[i]) is Str
}

/// Whether an entry's value has exactly the expected record shape: an
/// object whose `prefix` is a string, whose `body` is an array of strings,
/// and whose `description` is a string or absent.
pub open spec fn strict_body_ok(v: JsonValue) -> bool {
    &&& v is Obj
    &&& field_of(v, "prefix"@) is Str
    &&& (field_of(v, "body"@) matches JsonValue::Arr(elems) && all_strings(elems@))
    &&& (field_of(v, "description"@) is Str || field_of(v, "description"@) is Null)
}

/// Whether every record of the entry list has the expected shape.
pub open spec fn strict_entries_ok(es: Seq<(String, JsonValue)>) -> bool {
    forall|i: int| 0 <= i < es.len() ==> strict_body_ok((#[trigger] es[i]).1)
}

/// Whether the whole document has the strict shape: an object, every record
/// in the expected shape.
pub open spec fn strict_ok(v: JsonValue) -> bool {
    v matches JsonValue::Obj(es) && strict_entries_ok(es@)
}

/// The record an entry stands for under strict reading: as under lenient
/// reading, except that an empty description is kept.
pub open spec fn strict_view_of(v: JsonValue) -> FriendlyBodyView {
    FriendlyBodyView {
        prefix: as_str_opt(field_of(v, "prefix"@)),
        body: body_of(field_of(v, "body"@)),
        description: as_str_opt(field_of(v, "description"@)),
    }
}

/// The strict table, records inserted in the order the parsed entries
/// arrive.
pub open spec fn strict_table_spec(entries: Seq<(String, JsonValue)>) -> Seq<
    (Seq<char>, FriendlyBodyView),
>
    decreases entries.len(),
{
    if entries.len() == 0 {
        Seq::empty()
    } else {
        insert_entry(
            strict_table_spec(entries.drop_last()),
            entries.last().0@,
            strict_view_of(entries.last().1),
        )
    }
}

/// Decides [`strict_body_ok`].
fn strict_body_check(v: &JsonValue) -> (r: bool)
    ensures
        r == strict_body_ok(*v),
{
    match v {
        JsonValue::Obj(_) => {},
        _ => {
            return false;
        },
    }
    match get_field(v, "prefix") {
        Some(p) => {
            match p {
                JsonValue::Str(_) => {},
                _ => {
                    return false;
                },
            }
        },
        None => {
            return false;
        },
    }
    match get_field(v, "description") {
        Some(d) => {
            match d {
                JsonValue::Str(_) => {},
                _ => {
                    return false;
                },
            }
        },
        None => {},
    }
    match get_field(v, "body") {
        Some(b) => {
            match b {
                JsonValue::Arr(elems) => {
                    let mut i: usize = 0;
                    while i < elems.len()
                        invariant
                            i <= elems@.len(),
                            field_of(*v, "body"@) == JsonValue::Arr(*elems),
                            forall|k: int| 0 <= k < i ==> (#[trigger] elems@[k]) is Str,
                        decreases elems@.len() - i,
                    {
                        match &elems[i] {
                            JsonValue::Str(_) => {},
                            _ => {
                                return false;
                            },
                        }
                        i = i + 1;
                    }
                    true
                },
                _ => false,
            }
        },
        None => false,
    }
}

/// Builds the record an entry stands for under strict reading.
fn strict_record(v: &JsonValue) -> (r: FriendlySnippetBody)
    ensures
        r@ == strict_view_of(*v),
{
    let body: Vec<String> = match get_field(v, "body") {
        Some(b) => retrieve_body(b),
        None => {
            let nul = JsonValue::Null;
            let b = retrieve_body(&nul);
            proof {
                assert(body_of(JsonValue::Null) =~= body_of(field_of(*v, "body"@)));
            }
            b
        },
    };
    let description: Option<String> = match get_field(v, "description") {
        Some(d) => {
            match d {
                JsonValue::Str(s) => Some(s.clone()),
                _ => None,
            }
        },
        None => None,
    };
    let prefix: Option<String> = match get_field(v, "prefix") {
        Some(p) => {
            match p {
                JsonValue::Str(s) => Some(s.clone()),
                _ => None,
            }
        },
        None => None,
    };
    let r = FriendlySnippetBody { prefix, body, description };
    proof {
        assert(r@ =~~= strict_view_of(*v));
    }
    r
}

/// Reads a JSON snippet table: first strictly, assuming every record has
/// the expected shape, then — when any record deviates — leniently, as
/// [`dynamically_read_json_snippets`] does.
pub fn read_in_json_snippets(file: &str, interactive: bool) -> (r: Result<
    LenientLoad,
    TektonError,
>)
    ensures
        json_of(file@) is None ==> (r matches Err(e) && e matches TektonError::Reason(m) && m@
            == malformed_json_msg()),
        (json_of(file@) matches Some(v) && !(v is Obj)) ==> (r matches Ok(l) && l.snippets@
            == Seq::<(Seq<char>, FriendlyBodyView)>::empty() && l.to_fix@.len() == 0
            && l.snippets.wf()),
        json_of(file@) matches Some(JsonValue::Obj(es)) ==> {
            if strict_ok(JsonValue::Obj(es)) {
                r matches Ok(l) && l.snippets@ == strict_table_spec(es@) && l.to_fix@.len() == 0
                    && l.snippets.wf()
            } else if !interactive && lenient_missing_spec(es@).len() > 0 {
                r matches Err(e) && e matches TektonError::Reason(m) && m@ == missing_prefix_msg()
            } else {
                r matches Ok(l) && l.snippets@ == lenient_table_spec(es@) && l.snippets.wf()
                    && entry_views(l.to_fix@) == lenient_missing_spec(es@) && (!interactive
                    ==> l.to_fix@.len() == 0)
            }
        },
{
    let parsed = parse_json(file);
    match parsed {
        None => Err(
            TektonError::Reason(String::from_str("Unable to parse the file as JSON. Aborting.")),
        ),
        Some(v) => {
            let strict = match &v {
                JsonValue::Obj(entries) => {
                    let mut ok = true;
                    let mut i: usize = 0;
                    while i < entries.len()
                        invariant
                            i <= entries@.len(),
                            v == JsonValue::Obj(*entries),
                            ok ==> forall|k: int|
                                0 <= k < i ==> strict_body_ok((#[trigger] entries@[k]).1),
                            !ok ==> !strict_entries_ok(entries@),
                        decreases entries@.len() - i,
                    {
                        if !strict_body_check(&entries[i].1) {
                            proof {
                                if strict_entries_ok(entries@) {
                                    assert(strict_body_ok(entries@[i as int].1));
                                }
                            }
                            ok = false;
                        }
                        i = i + 1;
                    }
                    ok
                },
                _ => false,
            };
            proof {
                assert(strict == strict_ok(v));
            }
            if strict {
                match v {
                    JsonValue::Obj(mut entries) => {
                        let ghost es0 = entries@;
                        let ghost n = es0.len();
                        let mut snippets = FriendlySnippets::new();
                        proof {
                            assert(es0.take(0) =~= Seq::<(String, JsonValue)>::empty());
                        }
                        while entries.len() > 0
                            invariant
                                entries@.len() <= n,
                                n == es0.len(),
                                forall|k: int|
                                    0 <= k < entries@.len() ==> (#[trigger] entries@[k]) == es0[k
                                        + (n - entries@.len())],
                                snippets@ == strict_table_spec(es0.take(n - entries@.len())),
                                snippets.wf(),
                            decreases entries@.len(),
                        {
                            let ghost i = n - entries@.len();
                            let ghost ents_before = entries@;
                            let e = entries.remove(0);
                            proof {
                                assert(e == es0[i]);
                                assert(entries@ =~= ents_before.skip(1));
                                assert forall|k: int|
                                    0 <= k < entries@.len() implies (#[trigger] entries@[k])
                                        == es0[k + (n - entries@.len())] by {
                                    assert(entries@[k] == ents_before[k + 1]);
                                }
                                assert(es0.take(i + 1).drop_last() =~= es0.take(i));
                                assert(es0.take(i + 1).last() == es0[i]);
                            }
                            let name = e.0;
                            let body = strict_record(&e.1);
                            snippets.snippets.insert(name, body);
                            proof {
                                assert(snippets@ == strict_table_spec(es0.take(i + 1)));
                            }
                        }
                        proof {
                            assert(es0.take(n as int) =~= es0);
                        }
                        Ok(LenientLoad { snippets, to_fix: Vec::new() })
                    },
                    _ => {
                        proof {
                            assert(false);
                        }
                        Ok(LenientLoad { snippets: FriendlySnippets::new(), to_fix: Vec::new() })
                    },
                }
            } else {
                load_lenient_value(v, interactive)
            }
        },
    }
}

/// What the table becomes once the queued records are corrected: the last
/// queued record is fixed first, given the prefix supplied for it, and
/// inserted under its name.
pub open spec fn corrected_table_spec(
    m: Seq<(Seq<char>, FriendlyBodyView)>,
    fixes: Seq<(Seq<char>, FriendlyBodyView)>,
    prefixes: Seq<Seq<char>>,
) -> Seq<(Seq<char>, FriendlyBodyView)>
    decreases fixes.len(),
{
    if fixes.len() == 0 {
        m
    } else {
        let e = fixes.last();
        let fixed = FriendlyBodyView { prefix: Some(prefixes[fixes.len() - 1]), ..e.1 };
        corrected_table_spec(
            insert_entry(m, e.0, fixed),
            fixes.drop_last(),
            prefixes.drop_last(),
        )
    }
}

/// Inserts the queued records into the table, each given its supplied
/// prefix; the record queued last is fixed first.
pub fn correct_missing_prefix_snippets(
    snippets_to_fix: Vec<(String, FriendlySnippetBody)>,
    prefixes: Vec<String>,
    snippets: &mut FriendlySnippets,
)
    requires
        prefixes@.len() == snippets_to_fix@.len(),
        old(snippets).wf(),
    ensures
        final(snippets)@ == corrected_table_spec(
            old(snippets)@,
            entry_views(snippets_to_fix@),
            prefixes.deep_view(),
        ),
        final(snippets).wf(),
{
    let mut snippets_to_fix = snippets_to_fix;
    let mut prefixes = prefixes;
    let ghost goal = corrected_table_spec(
        snippets@,
        entry_views(snippets_to_fix@),
        prefixes.deep_view(),
    );
    while snippets_to_fix.len() > 0
        invariant
            prefixes@.len() == snippets_to_fix@.len(),
            snippets.wf(),
            goal == corrected_table_spec(
                snippets@,
                entry_views(snippets_to_fix@),
                prefixes.deep_view(),
            ),
        decreases snippets_to_fix@.len(),
    {
        let ghost fixes_before = entry_views(snippets_to_fix@);
        let ghost prefs_before = prefixes.deep_view();
        let e = match snippets_to_fix.pop() {
            Some(e) => e,
            None => {
                proof {
                    assert(false);
                }
                (String::new(), FriendlySnippetBody { prefix: None, body: Vec::new(), description: None })
            },
        };
        let p = match prefixes.pop() {
            Some(p) => p,
            None => {
                proof {
                    assert(false);
                }
                String::new()
            },
        };
        let (name, mut body) = e;
        let ghost old_bv = body@;
        body.prefix = Some(p);
        proof {
            assert(entry_views(snippets_to_fix@) =~= fixes_before.drop_last());
            assert(prefixes.deep_view() =~= prefs_before.drop_last());
            assert(fixes_before.last() == (name@, old_bv));
            assert(body@ =~~= FriendlyBodyView {
                prefix: Some(prefs_before[fixes_before.len() - 1]),
                ..old_bv
            });
        }
        snippets.snippets.insert(name, body);
    }
    proof {
        assert(entry_views(snippets_to_fix@).len() == 0);
        assert(entry_views(snippets_to_fix@) =~= Seq::<(Seq<char>, FriendlyBodyView)>::empty());
    }
}

} // verus!
