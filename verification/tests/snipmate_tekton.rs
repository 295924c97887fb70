use tekton::snipmate::build_snipmate_string;
use tekton::snipmate::build_snippets_from_file;
use tekton::snipmate::create_snipmate_structs_from_json;
use tekton::snipmate::Snipmate;
use tekton::lenient::read_in_json_snippets;

#[test]
fn test_building_snipmate_on_empty_string() {
    let input: Vec<String> = vec![];

    let snippets = build_snippets_from_file(input).unwrap();

    assert_eq!(snippets.len(), 0);
}

#[test]
fn test_building_snippets_from_file() {
    let input: Vec<String> = vec![
        "snippet test".to_string(),
        "   test snippet".to_string(),
        "snippet test2 an epic description".to_string(),
        "    a second snippet".to_string(),
        "    with several".to_string(),
        "    lines.".to_string(),
    ];

    let snippets = build_snippets_from_file(input).unwrap();

    assert_eq!(snippets.len(), 2);
    let snip = snippets.get(0).unwrap();
    let snip2 = snippets.get(1).unwrap();
    let expected = vec![
        Snipmate::new(
            "test".to_string(),
            vec!["   test snippet".to_string()],
            None,
        ),
        Snipmate::new(
            "test2".to_string(),
            vec![
                "    a second snippet".to_string(),
                "    with several".to_string(),
                "    lines.".to_string(),
            ],
            Some("an epic description".to_string()),
        ),
    ];
    assert_eq!(snip.prefix, expected.get(0).unwrap().prefix);
    assert_eq!(snip.body, expected.get(0).unwrap().body);
    assert_eq!(snip.description, expected.get(0).unwrap().description);

    assert_eq!(snip2.prefix, expected.get(1).unwrap().prefix);
    assert_eq!(snip2.body, expected.get(1).unwrap().body);
    assert_eq!(snip2.description, expected.get(1).unwrap().description);
}

#[test]
fn test_output_string() {
    let input: Vec<String> = vec!["snippet test".to_string(), "   test snippet".to_string()];

    let snippets = build_snippets_from_file(input).unwrap();

    if let Ok(res) = build_snipmate_string(snippets) {
        let spaces = "   "; // Note four spaces
        let expected: &str = &("snippet test\n\t".to_string() + spaces + "test snippet\n");
        assert_eq!(res, expected);
    } else {
        assert!(false);
    }
}

#[test]
fn snippet_bodies_match() {
    let input = r#"{
            "alpha": {
                "prefix": "print",
                "body": ["print!(", "\"${1}\");)"],
                "description": "print!(…);"
          }
        }"#;

    let friendlies = read_in_json_snippets(input, false).unwrap().snippets;
    let snippet = friendlies.snippets.get("alpha").unwrap().clone();

    let snipmate = create_snipmate_structs_from_json(friendlies);

    match snipmate {
        Ok(other) => {
            assert_eq!(other.len(), 1);
            let s = &other[0];
            assert_eq!(s.description, snippet.description);
        }
        Err(e) => panic!("{}", e.message()),
    }
}
