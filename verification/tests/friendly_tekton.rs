use tekton::errors::TektonError;
use tekton::friendly::FriendlySnippetBody;
use tekton::lenient::dynamically_read_json_snippets;
use tekton::lenient::read_in_json_snippets;
use tekton::render::to_json_string;

const INTERACTIVE: bool = false;

#[test]
fn friendly_tekton_standard_json_reading() {
    let file = r#"{
            "beta": {
              "prefix": "println",
              "body": ["println!(\"${1}\");"],
              "description": "println!(…);"
            },
            "alpha": {
              "prefix": "print",
              "body": ["print!(\"${1}\");"],
              "description": "print!(…);"
            }
          }"#
    .to_string();

    let snippets = read_in_json_snippets(&file, INTERACTIVE);

    match snippets {
        Ok(res) => {
            let expected_struct = FriendlySnippetBody::new(
                Some("println".to_string()),
                vec!["println!(\"${1}\");".to_string()],
                Some("println!(…);".to_string()),
            );
            assert_eq!(res.snippets.snippets.len(), 2);
            let item = res.snippets.snippets.get("beta").unwrap();
            assert_eq!(item.prefix, expected_struct.prefix);
            assert_eq!(item, &expected_struct);
        }
        Err(e) => {
            println!("Error: {}", e.message());
            assert!(false);
        }
    }
}

#[test]
fn friendly_tekton_dyn_json_reading() {
    let file = r#"{
          "beta": {
            "prefix": "println",
            "body": ["println!(\"${1}\");"],
            "description": "println!(…);"
          },
          "alpha": {
            "prefix": "print",
            "body": ["print!(\"${1}\");"],
            "description": "print!(…);"
          }
        }"#
    .to_string();

    let res = dynamically_read_json_snippets(&file, INTERACTIVE);

    match res {
        Ok(res) => {
            let expected_struct = FriendlySnippetBody::new(
                Some("println".to_string()),
                vec!["println!(\"${1}\");".to_string()],
                Some("println!(…);".to_string()),
            );
            assert_eq!(res.snippets.snippets.len(), 2);
            let item = res.snippets.snippets.get("beta").unwrap();
            assert_eq!(item.prefix, expected_struct.prefix);
            assert_eq!(item, &expected_struct);
        }
        Err(e) => {
            println!("Error: {}", e.message());
            assert!(false);
        }
    }
}

#[test]
fn friendly_tekton_jekyll() {
    let file = r#"{
        "Filter downcase": {
          "prefix": "downcase",
          "description": "String filter: downcase",
          "body": "| downcase }}"
        }}"#
    .to_string();

    let res = dynamically_read_json_snippets(&file, INTERACTIVE);

    match res {
        Ok(res) => {
            let expected_struct = FriendlySnippetBody::new(
                Some("downcase".to_string()),
                vec!["| downcase }}".to_string()],
                Some("String filter: downcase".to_string()),
            );
            assert_eq!(res.snippets.snippets.len(), 1);
            let item = res.snippets.snippets.get("Filter downcase").unwrap();
            assert_eq!(item.prefix, expected_struct.prefix);
            assert_eq!(item, &expected_struct);
        }
        Err(e) => {
            println!("Error: {}", e.message());
            assert!(false);
        }
    }
}

#[test]
fn friendly_tekton_serialization() {
    let file = r#"{
    "Filter downcase": {
      "prefix": "downcase",
      "description": "String filter: downcase",
      "body": "| downcase }}"
    }}"#
    .to_string();

    let res = dynamically_read_json_snippets(&file, INTERACTIVE);

    match res {
        Ok(res) => {
            let expected_struct = FriendlySnippetBody::new(
                Some("downcase".to_string()),
                vec!["| downcase }}".to_string()],
                Some("String filter: downcase".to_string()),
            );
            assert_eq!(res.snippets.snippets.len(), 1);
            let item = res.snippets.snippets.get("Filter downcase").unwrap();
            assert_eq!(item.prefix, expected_struct.prefix);
            assert_eq!(item, &expected_struct);

            let s = to_json_string(&res.snippets);
            const EXPECTED: &str = "{\"Filter downcase\":{\"prefix\":\"downcase\",\"body\":[\"| downcase }}\"],\"description\":\"String filter: downcase\"}}";
            assert_eq!(s, EXPECTED);
        }
        Err(e) => {
            println!("Error: {}", e.message());
            assert!(false);
        }
    }
}

#[test]
fn friendly_tekton_serialization_with_empty_description() {
    let file = r#"{
    "Filter downcase": {
      "prefix": "downcase",
      "body": "| downcase }}"
    }}"#
    .to_string();

    let res = dynamically_read_json_snippets(&file, INTERACTIVE);

    match res {
        Ok(res) => {
            let expected_struct = FriendlySnippetBody::new(
                Some("downcase".to_string()),
                vec!["| downcase }}".to_string()],
                None,
            );
            assert_eq!(res.snippets.snippets.len(), 1);
            let item = res.snippets.snippets.get("Filter downcase").unwrap();
            assert_eq!(item.prefix, expected_struct.prefix);
            assert_eq!(item, &expected_struct);

            let s = to_json_string(&res.snippets);
            const EXPECTED: &str =
                "{\"Filter downcase\":{\"prefix\":\"downcase\",\"body\":[\"| downcase }}\"]}}";
            assert_eq!(s, EXPECTED);
        }
        Err(e) => {
            println!("Error: {}", e.message());
            assert!(false);
        }
    }
}

#[test]
fn serialization_missing_prefix() {
    let file = r#"{
    "Filter downcase": {
      "body": "| downcase }}"
    }}"#
    .to_string();

    let res = dynamically_read_json_snippets(&file, INTERACTIVE);

    match res {
        Ok(_) => {
            assert!(false);
        }
        Err(e) => {
            assert_eq!(
                e,
                TektonError::Reason(
                    "File contains snippets with missing prefix field(s). Aborting.".into()
                )
            );
        }
    }
}

#[test]
fn serialization_missing_prefix_throw_error() {
    let file = r#"{
        "Filter downcase": {
          "body": "| downcase }}"
        }
    }"#
    .to_string();

    let res = dynamically_read_json_snippets(&file, INTERACTIVE);

    match res {
        Ok(_) => {
            assert!(false, "Failed to throw the error");
        }
        Err(e) => {
            assert_eq!(
                e,
                TektonError::Reason(
                    "File contains snippets with missing prefix field(s). Aborting.".into()
                )
            );
        }
    }
}
