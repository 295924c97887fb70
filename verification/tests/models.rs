use tekton::friendly::FriendlySnippetBody;
use tekton::friendly::FriendlySnippets;
use tekton::snipmate::Snipmate;
use tekton::snippet::Snippet;

#[test]
fn friendly_test_snippet_body_creation() {
    let body = FriendlySnippetBody::new(
        Some("snip".to_string()),
        Vec::new(),
        Some("Description".to_string()),
    );
    assert_eq!(body.prefix, Some("snip".to_string()));
    assert_eq!(body.body.len(), 0);
}

#[test]
fn friendly_test_friendly_snippets() {
    let mut hp: FriendlySnippets = FriendlySnippets::new();
    let body = FriendlySnippetBody::new(
        Some("snip".to_string()),
        Vec::new(),
        Some("Description".to_string()),
    );
    let expected_body = FriendlySnippetBody::new(
        Some("snip".to_string()),
        Vec::new(),
        Some("Description".to_string()),
    );
    hp.snippets.insert("test".to_string(), body);
    assert_eq!(hp.snippets.get("test").unwrap(), &expected_body);
}

#[test]
fn friendly_description_is_none() {
    let mut hp: FriendlySnippets = FriendlySnippets::new();
    let body = FriendlySnippetBody::new(Some("snip".to_string()), Vec::new(), None);
    let expected_body = FriendlySnippetBody::new(Some("snip".to_string()), Vec::new(), None);
    hp.snippets.insert("test".to_string(), body);
    assert_eq!(hp.snippets.get("test").unwrap(), &expected_body);
}

#[test]
fn test_vim_snippet_creation_with_description() {
    let snip = Snipmate::new(
        String::from("test"),
        Vec::new(),
        Some(String::from("An epic test description")),
    );
    assert_eq!(snip.prefix, "test".to_string());
    assert_eq!(snip.body.len(), 0);
    assert_eq!(
        snip.description,
        Some("An epic test description".to_string())
    );
}

#[test]
fn test_vim_snippet_creation_without_description() {
    let snip = Snipmate::new(String::from("test"), Vec::new(), None);
    assert_eq!(snip.prefix, "test".to_string());
    assert_eq!(snip.body.len(), 0);
    assert_eq!(snip.description, None);
}

#[test]
fn snipmate_test_vim_snippet_creation() {
    let snip = Snipmate::new(
        String::from("test"),
        Vec::new(),
        Some(String::from("An epic test description")),
    );
    assert_eq!(snip.prefix, "test".to_string());
    assert_eq!(snip.body.len(), 0);
    assert_eq!(
        snip.description,
        Some("An epic test description".to_string())
    );
}

#[test]
fn snipmate_test_vim_snippet_display() {
    let mut snip = Snipmate::new(
        String::from("test"),
        Vec::new(),
        Some(String::from("An epic test description")),
    );
    snip.body.push(String::from("A line of snippet"));
    let string_rep = snip.display();

    assert_eq!(
        string_rep,
        String::from("snippet test An epic test description\n\tA line of snippet\n")
    );
}

#[test]
fn test_vim_snippet_display_without_description() {
    let mut snip = Snipmate::new(String::from("test"), Vec::new(), None);
    snip.body.push(String::from("A line of snippet"));
    let string_rep = snip.display();

    assert_eq!(
        string_rep,
        String::from("snippet test\n\tA line of snippet\n")
    );
}

#[test]
fn snippet_test_vim_snippet_creation() {
    let snip = Snippet::new(
        String::from("test"),
        Vec::new(),
        String::from("An epic test description"),
    );
    assert_eq!(snip.prefix, "test".to_string());
    assert_eq!(snip.body.len(), 0);
    assert_eq!(snip.description, "An epic test description".to_string());
}
