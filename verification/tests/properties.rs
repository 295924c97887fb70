use tekton::convert::compose_friendly_snippets;
use tekton::convert::gen_friendly_snippets;
use tekton::convert::convert_snipmate_to_friendlysnippets;
use tekton::errors::TektonError;
use tekton::friendly::FriendlySnippetBody;
use tekton::friendly::FriendlySnippets;
use tekton::lenient::correct_missing_prefix_snippets;
use tekton::lenient::dynamically_read_json_snippets;
use tekton::lenient::read_in_json_snippets;
use tekton::manager::composer_mapping;
use tekton::manager::SnippetMapping;
use tekton::manager::SortConfigManager;
use tekton::multiprefix::dynamic_prefix_combinator;
use tekton::multiprefix::order_friendly_snippets;
use tekton::render::render_body_pretty;
use tekton::render::sort_friendly_snippets;
use tekton::render::to_json_string;
use tekton::snipmate::build_snipmate_string;
use tekton::snipmate::build_snippets_from_file;
use tekton::snipmate::compose_snipmate_snippets;
use tekton::snipmate::Snipmate;
use tekton::snippet::standardize_string;
use tekton::snippet::Snippet;

fn body(prefix: &str, line: &str) -> FriendlySnippetBody {
    FriendlySnippetBody::new(Some(prefix.to_string()), vec![line.to_string()], None)
}

/// Round-trip on body text: a record carried into the JSON shape and back
/// keeps its body lines once the first line's leading blanks are gone.
#[test]
fn round_trip_preserves_body_lines() {
    let snip = Snipmate::new(
        "test".to_string(),
        vec!["let x = 1;".to_string(), "    let y = 2;".to_string()],
        Some("plain words".to_string()),
    );
    let table = convert_snipmate_to_friendlysnippets(vec![snip], vec!["my snippet".to_string()]);
    let stored = table.snippets.get("my snippet").unwrap();
    assert_eq!(stored.prefix, Some("test".to_string()));
    assert_eq!(
        stored.body,
        vec!["let x = 1;".to_string(), "    let y = 2;".to_string()]
    );
    assert_eq!(stored.description, Some("plain words".to_string()));

    // and back out through the line-format renderer
    let back = compose_snipmate_snippets(table).unwrap();
    assert_eq!(
        back,
        "snippet test plain words\n\tlet x = 1;\n\t    let y = 2;\n"
    );
}

/// Round-trip: only the record's first body line is trimmed on the way in.
#[test]
fn conversion_trims_only_the_first_line() {
    let snip = Snipmate::new(
        "test".to_string(),
        vec!["   first".to_string(), "   second".to_string()],
        None,
    );
    let table = convert_snipmate_to_friendlysnippets(vec![snip], vec!["n".to_string()]);
    let stored = table.snippets.get("n").unwrap();
    assert_eq!(stored.body, vec!["first".to_string(), "   second".to_string()]);
}

/// Sorting is case-insensitive and stable: ties between case variants keep
/// their input order.
#[test]
fn sorted_render_orders_keys_case_insensitively() {
    let mut table = FriendlySnippets::new();
    table.snippets.insert("zebra".to_string(), body("z", "l"));
    table.snippets.insert("Plant".to_string(), body("p", "l"));
    table.snippets.insert("pLants".to_string(), body("q", "l"));
    table.snippets.insert("apples".to_string(), body("a", "l"));
    table.snippets.insert("Apples".to_string(), body("b", "l"));

    let rendered = sort_friendly_snippets(table).unwrap();
    let order = [
        "\"apples\"",
        "\"Apples\"",
        "\"Plant\"",
        "\"pLants\"",
        "\"zebra\"",
    ];
    let mut last: usize = 0;
    for key in order.iter() {
        let at = rendered.find(key).unwrap();
        assert!(at >= last, "key {} out of order in {}", key, rendered);
        last = at;
    }
}

/// Lowercasing really happens before comparison: an uppercase key does not
/// win on byte order.
#[test]
fn sorting_lowercases_before_comparing() {
    let mut table = FriendlySnippets::new();
    table.snippets.insert("ZEBRA".to_string(), body("z", "l"));
    table.snippets.insert("apple".to_string(), body("a", "l"));
    let rendered = sort_friendly_snippets(table).unwrap();
    let apple = rendered.find("\"apple\"").unwrap();
    let zebra = rendered.find("\"ZEBRA\"").unwrap();
    assert!(apple < zebra);
}

/// An empty table is refused, never rendered as an empty object.
#[test]
fn render_of_empty_table_is_refused() {
    let table = FriendlySnippets::new();
    match sort_friendly_snippets(table) {
        Ok(_) => panic!("an empty table must not render"),
        Err(e) => assert_eq!(
            e,
            TektonError::Reason("Refusing to build string for 0 snippets".to_string())
        ),
    }
}

/// The multi-prefix renderer refuses an empty table too.
#[test]
fn multi_render_of_empty_table_is_refused() {
    let table = dynamic_prefix_combinator("{}").unwrap();
    match order_friendly_snippets(table) {
        Ok(_) => panic!("an empty table must not render"),
        Err(e) => assert_eq!(
            e,
            TektonError::Reason("Refusing to build string for 0 snippets".to_string())
        ),
    }
}

/// A missing prefix fails a non-interactive load however many other records
/// are complete.
#[test]
fn missing_prefix_fails_among_good_records() {
    let file = r#"{
        "good one": { "prefix": "a", "body": ["x"] },
        "incomplete": { "body": ["y"] },
        "good two": { "prefix": "b", "body": ["z"] }
    }"#;
    match dynamically_read_json_snippets(file, false) {
        Ok(_) => panic!("the incomplete record must fail the load"),
        Err(e) => assert_eq!(
            e,
            TektonError::Reason(
                "File contains snippets with missing prefix field(s). Aborting.".to_string()
            )
        ),
    }
}

/// In interactive mode the incomplete record is queued instead, and a
/// supplied prefix completes the table.
#[test]
fn interactive_load_queues_and_corrects() {
    let file = r#"{
        "good one": { "prefix": "a", "body": ["x"] },
        "incomplete": { "body": ["y"] }
    }"#;
    let load = dynamically_read_json_snippets(file, true).unwrap();
    assert_eq!(load.snippets.snippets.len(), 1);
    assert_eq!(load.to_fix.len(), 1);
    assert_eq!(load.to_fix[0].0, "incomplete".to_string());

    let mut table = load.snippets;
    correct_missing_prefix_snippets(load.to_fix, vec!["fixed".to_string()], &mut table);
    assert_eq!(table.snippets.len(), 2);
    let fixed = table.snippets.get("incomplete").unwrap();
    assert_eq!(fixed.prefix, Some("fixed".to_string()));
    assert_eq!(fixed.body, vec!["y".to_string()]);
}

/// Multi-prefix loading accepts a bare string and an array alike, producing
/// lists of length one and two.
#[test]
fn multi_prefix_accepts_string_and_array() {
    let file = r#"{
        "one": { "prefix": "x", "body": ["b"] },
        "two": { "prefix": ["x", "y"], "body": ["b"] }
    }"#;
    let table = dynamic_prefix_combinator(file).unwrap();
    assert_eq!(table.snippets.get("one").unwrap().prefix.len(), 1);
    let two = table.snippets.get("two").unwrap();
    assert_eq!(two.prefix, vec!["x".to_string(), "y".to_string()]);
}

/// A prefix of any other shape fails the load, named in the error.
#[test]
fn multi_prefix_rejects_other_shapes() {
    let file = r#"{ "broken": { "prefix": 7, "body": ["b"] } }"#;
    match dynamic_prefix_combinator(file) {
        Ok(_) => panic!("a numeric prefix must be refused"),
        Err(e) => assert_eq!(
            e,
            TektonError::Reason(
                "Failed on snippet ---> broken | Check source file, not possible to construct snippet."
                    .to_string()
            )
        ),
    }
}

/// Text that is not JSON is refused rather than crashing the load.
#[test]
fn malformed_json_is_refused() {
    match dynamically_read_json_snippets("snippet test", false) {
        Ok(_) => panic!("text that is not JSON must be refused"),
        Err(e) => assert_eq!(
            e,
            TektonError::Reason("Unable to parse the file as JSON. Aborting.".to_string())
        ),
    }
    match dynamic_prefix_combinator("[[[") {
        Ok(_) => panic!("text that is not JSON must be refused"),
        Err(e) => assert_eq!(
            e,
            TektonError::Reason("Unable to parse the file as JSON. Aborting.".to_string())
        ),
    }
}

/// A body line before any header is malformed line-format input.
#[test]
fn body_line_before_header_is_refused() {
    let lines = vec!["   stray body".to_string()];
    match build_snippets_from_file(lines) {
        Ok(_) => panic!("a leading body line must be refused"),
        Err(e) => assert_eq!(
            e,
            TektonError::Reason(
                "File contains a snippet body line before any snippet header. Aborting."
                    .to_string()
            )
        ),
    }
}

/// The header keyword is recognized regardless of case.
#[test]
fn header_matching_ignores_case() {
    let lines = vec!["SNIPPET loud".to_string(), "\tbody".to_string()];
    let snippets = build_snippets_from_file(lines).unwrap();
    assert_eq!(snippets.len(), 1);
    assert_eq!(snippets[0].prefix, "loud".to_string());
}

/// The exact pretty rendering of a one-record table.
#[test]
fn pretty_render_matches_expected_shape() {
    let mut table = FriendlySnippets::new();
    table.snippets.insert("a".to_string(), body("p", "x"));
    let rendered = sort_friendly_snippets(table).unwrap();
    assert_eq!(
        rendered,
        "{\n  \"a\": {\n    \"prefix\": \"p\",\n    \"body\": [\n      \"x\"\n    ]\n  }\n}"
    );
}

/// Quotes and control characters are escaped in rendered JSON strings.
#[test]
fn rendering_escapes_quotes_and_tabs() {
    let mut table = FriendlySnippets::new();
    table.snippets.insert(
        "k".to_string(),
        body("p", "say \"hi\"\tnow"),
    );
    let compact = to_json_string(&table);
    assert_eq!(
        compact,
        "{\"k\":{\"prefix\":\"p\",\"body\":[\"say \\\"hi\\\"\\tnow\"]}}"
    );
}

/// A single record is shown pretty-printed when a user must name or fix it.
#[test]
fn single_record_pretty_display() {
    let b = body("p", "x");
    assert_eq!(
        render_body_pretty(&b),
        "{\n  \"prefix\": \"p\",\n  \"body\": [\n    \"x\"\n  ]\n}"
    );
}

/// An empty JSON string description is dropped by the lenient loader but
/// kept by the strict one.
#[test]
fn empty_description_lenient_versus_strict() {
    let file = r#"{ "k": { "prefix": "p", "body": ["x"], "description": "" } }"#;
    let lenient = dynamically_read_json_snippets(file, false).unwrap();
    assert_eq!(
        lenient.snippets.snippets.get("k").unwrap().description,
        None
    );
    let strict = read_in_json_snippets(file, false).unwrap();
    assert_eq!(
        strict.snippets.snippets.get("k").unwrap().description,
        Some(String::new())
    );
}

/// The whole line-format to sorted-JSON pipeline, with supplied names.
#[test]
fn compose_friendly_snippets_renders_sorted_table() {
    let lines = vec![
        "snippet zz".to_string(),
        "\tlast".to_string(),
        "snippet aa".to_string(),
        "\tfirst".to_string(),
    ];
    let names = vec!["zz snip".to_string(), "aa snip".to_string()];
    let rendered = compose_friendly_snippets(lines, names).unwrap();
    let aa = rendered.find("\"aa snip\"").unwrap();
    let zz = rendered.find("\"zz snip\"").unwrap();
    assert!(aa < zz);
}

/// Converting an empty line-format file is refused rather than writing an
/// empty table.
#[test]
fn compose_friendly_snippets_refuses_empty_input() {
    match compose_friendly_snippets(Vec::new(), Vec::new()) {
        Ok(_) => panic!("an empty file must be refused"),
        Err(e) => assert_eq!(
            e,
            TektonError::Reason("Refusing to build string for 0 snippets".to_string())
        ),
    }
}

/// Converting a table with a record that still lacks a prefix to line
/// format is refused.
#[test]
fn snipmate_conversion_requires_prefixes() {
    let mut table = FriendlySnippets::new();
    table.snippets.insert(
        "k".to_string(),
        FriendlySnippetBody::new(None, vec!["x".to_string()], None),
    );
    match compose_snipmate_snippets(table) {
        Ok(_) => panic!("a record without a prefix must be refused"),
        Err(e) => assert_eq!(
            e,
            TektonError::Reason("Missing snippets in count, conversion aborted.".to_string())
        ),
    }
    match build_snipmate_string(Vec::new()) {
        Ok(_) => panic!("zero records must be refused"),
        Err(e) => assert_eq!(
            e,
            TektonError::Reason("No snippets to convert".to_string())
        ),
    }
}

/// Only the three known format pairs are accepted.
#[test]
fn composer_mapping_accepts_three_pairs() {
    assert_eq!(
        composer_mapping("snippet", "json").unwrap(),
        SnippetMapping::SnippetToJson
    );
    assert_eq!(
        composer_mapping("json", "snippet").unwrap(),
        SnippetMapping::JsonToSnippet
    );
    assert_eq!(
        composer_mapping("json", "tekton-sort").unwrap(),
        SnippetMapping::JsonSort
    );
    match composer_mapping("json", "json") {
        Ok(_) => panic!("an undefined pair must be refused"),
        Err(e) => assert_eq!(
            e,
            TektonError::Reason("Unsupported mapping attempted in the composer function".to_string())
        ),
    }
}

/// The sort manager's flag and report behaviour.
#[test]
fn sort_manager_flags_and_report() {
    let mut manager = SortConfigManager::new(true);
    assert!(manager.is_crawling);
    assert!(!manager.is_interactive);
    manager.set_interactive(Some("yes".to_string()));
    assert!(manager.is_interactive);
    manager.set_interactive(Some("no".to_string()));
    assert!(!manager.is_interactive);
    manager.set_interactive(None);
    assert!(!manager.is_interactive);

    let all_clear = manager.gen_files_to_correct_string(Vec::new()).unwrap();
    assert_eq!(all_clear, "[Tekton]: No errors detected in the file(s).");
    let report = manager
        .gen_files_to_correct_string(vec!["a.json".to_string(), "b.json".to_string()])
        .unwrap();
    assert_eq!(
        report,
        "[ Warn ]: Issues found with these files: \n\ta.json\n\tb.json\n\n[Tekton]: Run with interactive mode to be able to fix any issues in the files listed."
    );
}

/// The oldest escape helper: quotes gain a backslash, escaped tabs become
/// two literal spaces.
#[test]
fn standardize_string_escapes() {
    let out = standardize_string("a\"b\\tc".to_string());
    assert_eq!(out, "a\\\"b  c".to_string());
}

/// Old-style records get a default display name derived from the prefix.
#[test]
fn gen_friendly_snippets_uses_default_names() {
    let snips = vec![Snippet::new(
        "fr".to_string(),
        vec!["  line".to_string()],
        String::new(),
    )];
    let named = gen_friendly_snippets(snips);
    assert_eq!(named.len(), 1);
    assert_eq!(named[0].name, "snippet fr".to_string());
    assert_eq!(named[0].snip_body.prefix, Some("fr".to_string()));
    assert_eq!(named[0].snip_body.body, vec!["line".to_string()]);
}

/// Inserting twice under one name keeps one record: the last write wins.
#[test]
fn table_insert_is_last_write_wins() {
    let mut table = FriendlySnippets::new();
    table.snippets.insert("k".to_string(), body("first", "x"));
    table.snippets.insert("k".to_string(), body("second", "y"));
    assert_eq!(table.snippets.len(), 1);
    assert_eq!(
        table.snippets.get("k").unwrap().prefix,
        Some("second".to_string())
    );
}

/// A JSON document that is not an object loads as an empty table.
#[test]
fn non_object_json_yields_empty_table() {
    let load = dynamically_read_json_snippets("[1, 2, 3]", false).unwrap();
    assert_eq!(load.snippets.snippets.len(), 0);
}

/// The exact pretty rendering of a one-record multi-prefix table.
#[test]
fn multi_pretty_render_matches_expected_shape() {
    let file = r#"{ "k": { "prefix": ["a", "b"], "body": ["x"], "description": "d" } }"#;
    let table = dynamic_prefix_combinator(file).unwrap();
    let rendered = order_friendly_snippets(table).unwrap();
    assert_eq!(
        rendered,
        "{\n  \"k\": {\n    \"prefix\": [\n      \"a\",\n      \"b\"\n    ],\n    \"body\": [\n      \"x\"\n    ],\n    \"description\": \"d\"\n  }\n}"
    );
}

/// The header parser joins the description tokens with single spaces and
/// unescapes escaped quotes to plain quotes.
#[test]
fn header_description_is_normalized() {
    let lines = vec!["snippet test say \\\"hi\\\"   twice".to_string()];
    let snippets = build_snippets_from_file(lines).unwrap();
    assert_eq!(snippets[0].prefix, "test".to_string());
    assert_eq!(snippets[0].description, Some("say \"hi\" twice".to_string()));
}

/// A header whose description is empty yields no description at all.
#[test]
fn header_without_description_yields_none() {
    let lines = vec!["snippet test".to_string()];
    let snippets = build_snippets_from_file(lines).unwrap();
    assert_eq!(snippets[0].description, None);
}

/// Escaped tabs in body lines expand to two spaces while parsing.
#[test]
fn body_tab_escapes_expand_when_parsing() {
    let lines = vec!["snippet test".to_string(), "\\tindented".to_string()];
    let snippets = build_snippets_from_file(lines).unwrap();
    assert_eq!(snippets[0].body, vec!["  indented".to_string()]);
}

/// The text-level round trip: rendering a clean record and parsing the
/// rendered lines back recovers it, each body line behind the leading tab
/// the renderer adds.
#[test]
fn display_then_parse_recovers_the_record() {
    let snip = Snipmate::new(
        "test".to_string(),
        vec!["code line".to_string(), "more code".to_string()],
        None,
    );
    let text = snip.display();
    let lines: Vec<String> = text.lines().map(|l| l.to_string()).collect();
    let parsed = build_snippets_from_file(lines).unwrap();
    assert_eq!(parsed.len(), 1);
    assert_eq!(parsed[0].prefix, "test".to_string());
    assert_eq!(
        parsed[0].body,
        vec!["\tcode line".to_string(), "\tmore code".to_string()]
    );
    assert_eq!(parsed[0].description, None);
}

/// Escaped quotes in a converted description become plain quotes.
#[test]
fn conversion_unescapes_description_quotes() {
    let snip = Snipmate::new(
        "test".to_string(),
        vec!["x".to_string()],
        Some("say \\\"hi\\\"".to_string()),
    );
    let table = convert_snipmate_to_friendlysnippets(vec![snip], vec!["n".to_string()]);
    assert_eq!(
        table.snippets.get("n").unwrap().description,
        Some("say \"hi\"".to_string())
    );
}

/// An absent description stays absent through the conversion, and the
/// renderer omits the field entirely.
#[test]
fn conversion_keeps_absent_description_absent() {
    let snip = Snipmate::new("test".to_string(), vec!["x".to_string()], None);
    let table = convert_snipmate_to_friendlysnippets(vec![snip], vec!["n".to_string()]);
    assert_eq!(table.snippets.get("n").unwrap().description, None);
    let rendered = to_json_string(&table);
    assert_eq!(rendered, "{\"n\":{\"prefix\":\"test\",\"body\":[\"x\"]}}");
}

/// The rendered header carries the description verbatim: doubled quotes are
/// not collapsed.
#[test]
fn display_keeps_description_quotes_verbatim() {
    let snip = Snipmate::new(
        "test".to_string(),
        Vec::new(),
        Some("an \"\"odd\"\" note".to_string()),
    );
    assert_eq!(snip.display(), "snippet test an \"\"odd\"\" note\n");
}

/// The prefix is the token after the keyword, wherever the keyword sits on
/// the line.
#[test]
fn header_prefix_follows_the_keyword() {
    let lines = vec!["x snippet real rest".to_string()];
    let snippets = build_snippets_from_file(lines).unwrap();
    assert_eq!(snippets[0].prefix, "real".to_string());
    assert_eq!(snippets[0].description, Some("rest".to_string()));
}

/// A multi-prefix record with an absent or empty description gets none, and
/// the renderer omits the field.
#[test]
fn multi_prefix_description_only_when_nonempty() {
    let file = r#"{
        "a": { "prefix": "p", "body": ["x"] },
        "b": { "prefix": "q", "body": ["y"], "description": "" }
    }"#;
    let table = dynamic_prefix_combinator(file).unwrap();
    assert_eq!(table.snippets.get("a").unwrap().description, None);
    assert_eq!(table.snippets.get("b").unwrap().description, None);
    let rendered = order_friendly_snippets(table).unwrap();
    assert!(!rendered.contains("description"));
}
