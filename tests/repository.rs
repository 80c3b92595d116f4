use snip_cli::codec::{decode_store, encode_store};
use snip_cli::repository::{edit_snippet, list_entries, remove_snippet, search_entries};
use snip_cli::repository::{show_entry, update_key, write_snippet};
use snip_cli::snippet::{Identifier, SnipError};

fn lines(items: &[&str]) -> Vec<String> {
    items.iter().map(|s| s.to_string()).collect()
}

fn store_with(entries: &[(&str, &str, &str, &str)]) -> String {
    let mut text = String::new();
    for (key, prefix, description, body) in entries {
        text = write_snippet(
            &text,
            key.to_string(),
            prefix.to_string(),
            description.to_string(),
            lines(&[body]),
        )
        .unwrap();
    }
    text
}

fn listed_keys(text: &str) -> Vec<String> {
    let mut keys: Vec<String> = list_entries(text, Identifier::Key)
        .unwrap()
        .lines()
        .map(|l| l.to_string())
        .collect();
    keys.sort();
    keys
}

#[test]
fn test_write_snippet_to_file() {
    let text = write_snippet(
        "",
        "test_key".to_string(),
        "test_prefix".to_string(),
        "test_description".to_string(),
        lines(&["test_body"]),
    )
    .expect("Failed to write test snippet to file");
    let value: serde_json::Value =
        serde_json::from_str(&text).expect("Failed to deserialize JSON content");
    let snippet = value.get("test_key").unwrap();
    assert_eq!(snippet["prefix"], "test_prefix");
    assert_eq!(snippet["description"], "test_description");
    assert_eq!(snippet["body"], serde_json::Value::Array(vec!["test_body".into()]));
}

#[test]
fn test_write_with_duplicate_key() {
    let text = store_with(&[("duplicate_key", "test_prefix", "test_description", "test_body")]);
    let result = write_snippet(
        &text,
        "duplicate_key".to_string(),
        "another_prefix".to_string(),
        "another_description".to_string(),
        lines(&["another_body"]),
    );
    assert!(result.is_err());
    assert_eq!(result, Err(SnipError::DuplicateKey("duplicate_key".to_string())));
}

#[test]
fn test_write_with_duplicate_prefix() {
    let text = store_with(&[("test_key_1", "duplicate_prefix", "description_1", "body_1")]);
    let result = write_snippet(
        &text,
        "test_key_2".to_string(),
        "duplicate_prefix".to_string(),
        "new_description".to_string(),
        lines(&["new_body"]),
    );
    assert!(result.is_err());
    assert_eq!(result, Err(SnipError::DuplicatePrefix("duplicate_prefix".to_string())));
}

#[test]
fn test_edit_with_empty_fields() {
    let text = store_with(&[("test_key", "initial_prefix", "initial_description", "initial_body")]);
    let result = edit_snippet(&text, "test_key".to_string(), None, None, None);
    assert!(result.is_err());
    assert_eq!(result, Err(SnipError::NoFieldsProvided));
}

#[test]
fn test_edit_with_duplicate_prefix() {
    let text = store_with(&[
        ("test_key_1", "duplicate_prefix", "description_1", "body_1"),
        ("test_key_2", "prefix_2", "description_2", "body_2"),
    ]);
    let result = edit_snippet(
        &text,
        "test_key_2".to_string(),
        Some("duplicate_prefix".to_string()),
        Some("new_description".to_string()),
        Some(lines(&["new_body"])),
    );
    assert!(result.is_err());
    assert_eq!(result, Err(SnipError::DuplicatePrefix("duplicate_prefix".to_string())));
}

#[test]
fn test_remove_snippet() {
    let existing_key = "existing_key".to_string();
    let non_existing_key = "non_existing_key".to_string();
    let write_result = write_snippet(
        "",
        existing_key,
        "test_prefix".to_string(),
        "test_description".to_string(),
        lines(&["test_body"]),
    );
    assert!(write_result.is_ok());
    let remove_result = remove_snippet(&write_result.unwrap(), &non_existing_key);
    assert!(remove_result.is_err());
    let error_message = remove_result.unwrap_err().message();
    assert_eq!(
        error_message,
        format!("Snippet with key '{}' not found", non_existing_key)
    );
}

#[test]
fn test_list_snippets() {
    let text = store_with(&[
        ("key1", "prefix1", "desc1", "body1"),
        ("key2", "prefix2", "desc2", "body2"),
    ]);
    let output = list_entries(&text, Identifier::Key).unwrap();
    assert!(output.contains("key1"));
    assert!(output.contains("key2"));
}

#[test]
fn test_search_snippets() {
    let text = store_with(&[
        ("test_key1", "test_prefix1", "A test description 1", "test_body1"),
        ("test_key2", "example_prefix2", "Another test description 2", "test_body2"),
    ]);
    let result_key = search_entries(&text, Some(Identifier::Key), "key1").unwrap();
    assert_eq!(result_key, vec!["test_key1"]);
    let result_prefix = search_entries(&text, Some(Identifier::Prefix), "example").unwrap();
    assert_eq!(result_prefix, vec!["example_prefix2"]);
    let result_desc = search_entries(&text, None, "description 2").unwrap();
    assert_eq!(result_desc, vec!["test_key2"]);
}

#[test]
fn test_show_snippet() {
    let text = store_with(&[("test_key", "test_prefix", "test_description", "test_body")]);
    let result = show_entry(&text, "test_key").unwrap();
    let mut expected_table = prettytable::Table::new();
    for (label, value) in [
        ("Key", "test_key"),
        ("Prefix", "test_prefix"),
        ("Description", "test_description"),
        ("Body", "test_body"),
    ] {
        expected_table.add_row(prettytable::Row::new(vec![
            prettytable::Cell::new(label),
            prettytable::Cell::new(value),
        ]));
    }
    assert_eq!(result, expected_table.to_string());
}

#[test]
fn test_update_key_in_file() {
    let text = store_with(&[("old_key", "test_prefix", "test_description", "test_body")]);
    let updated = update_key(&text, "old_key".to_string(), "new_key".to_string()).unwrap();
    let keys = listed_keys(&updated);
    assert!(keys.contains(&"new_key".to_string()));
    assert!(!keys.contains(&"old_key".to_string()));
}

#[test]
fn add_to_absent_store_creates_one_entry() {
    let text = write_snippet(
        "",
        "greet".to_string(),
        "gr".to_string(),
        "Greets user".to_string(),
        lines(&["console.log('hi')"]),
    )
    .unwrap();
    assert_eq!(listed_keys(&text), vec!["greet"]);
    let value: serde_json::Value = serde_json::from_str(&text).unwrap();
    let object = value.as_object().unwrap();
    assert_eq!(object.len(), 1);
    let greet = object["greet"].as_object().unwrap();
    assert_eq!(greet.len(), 3);
    assert_eq!(greet["prefix"], "gr");
    assert_eq!(greet["description"], "Greets user");
    assert_eq!(greet["body"][0], "console.log('hi')");
    assert_eq!(greet["body"].as_array().unwrap().len(), 1);
}

#[test]
fn add_with_taken_prefix_fails() {
    let text = store_with(&[("a", "p1", "first", "x"), ("b", "p2", "second", "y")]);
    let result = write_snippet(
        &text,
        "c".to_string(),
        "p1".to_string(),
        "third".to_string(),
        lines(&["z"]),
    );
    assert_eq!(result, Err(SnipError::DuplicatePrefix("p1".to_string())));
    assert_eq!(listed_keys(&text), vec!["a", "b"]);
}

#[test]
fn search_by_description_and_key() {
    let text = store_with(&[("a", "px", "moon walk", "step")]);
    assert!(search_entries(&text, None, "description 2").unwrap().is_empty());
    assert_eq!(search_entries(&text, None, "moon").unwrap(), vec!["a"]);
    assert_eq!(search_entries(&text, None, "MOON").unwrap(), vec!["a"]);
    assert_eq!(search_entries(&text, Some(Identifier::Key), "a").unwrap(), vec!["a"]);
    assert!(search_entries(&text, Some(Identifier::Key), "b").unwrap().is_empty());
    assert_eq!(search_entries(&text, Some(Identifier::Prefix), "x").unwrap(), vec!["px"]);
}

#[test]
fn edit_without_fields_leaves_text() {
    let text = store_with(&[("a", "px", "moon walk", "step")]);
    let before = text.clone();
    assert_eq!(
        edit_snippet(&text, "a".to_string(), None, None, None),
        Err(SnipError::NoFieldsProvided)
    );
    assert_eq!(text, before);
    assert_eq!(
        edit_snippet("", "a".to_string(), None, None, None),
        Err(SnipError::NoFieldsProvided)
    );
}

#[test]
fn rename_errors() {
    let text = store_with(&[("a", "pa", "first", "x"), ("b", "pb", "second", "y")]);
    assert_eq!(
        update_key(&text, "a".to_string(), "a".to_string()),
        Err(SnipError::SameKey)
    );
    assert_eq!(
        update_key(&text, "a".to_string(), "b".to_string()),
        Err(SnipError::DuplicateKey("b".to_string()))
    );
    assert_eq!(
        update_key(&text, "zz".to_string(), "c".to_string()),
        Err(SnipError::NotFound("zz".to_string()))
    );
    assert_eq!(
        update_key("", "a".to_string(), "c".to_string()),
        Err(SnipError::StoreUnavailable)
    );
}

#[test]
fn rename_keeps_fields() {
    let text = store_with(&[("a", "pa", "first", "x")]);
    let renamed = update_key(&text, "a".to_string(), "c".to_string()).unwrap();
    let store = decode_store(&renamed).unwrap();
    let rows = store.show_rows("c").unwrap();
    assert_eq!(rows[1], ("Prefix".to_string(), "pa".to_string()));
    assert_eq!(rows[2], ("Description".to_string(), "first".to_string()));
    assert_eq!(rows[3], ("Body".to_string(), "x".to_string()));
}

#[test]
fn remove_twice_fails_second_time() {
    let text = store_with(&[("a", "pa", "first", "x")]);
    let once = remove_snippet(&text, "a").unwrap();
    assert_eq!(listed_keys(&once), Vec::<String>::new());
    assert_eq!(
        remove_snippet(&once, "a"),
        Err(SnipError::NotFound("a".to_string()))
    );
}

#[test]
fn remove_needs_a_store() {
    assert_eq!(remove_snippet("", "a"), Err(SnipError::StoreUnavailable));
    assert_eq!(list_entries("", Identifier::Key), Err(SnipError::StoreUnavailable));
    assert_eq!(search_entries("", None, "x"), Err(SnipError::StoreUnavailable));
    assert_eq!(show_entry("", "a"), Err(SnipError::StoreUnavailable));
}

#[test]
fn edit_overwrites_only_given_fields() {
    let text = store_with(&[("a", "pa", "first", "x"), ("b", "pb", "second", "y")]);
    let edited = edit_snippet(
        &text,
        "a".to_string(),
        None,
        Some("changed".to_string()),
        None,
    )
    .unwrap();
    let rows = decode_store(&edited).unwrap().show_rows("a").unwrap();
    assert_eq!(rows[1].1, "pa");
    assert_eq!(rows[2].1, "changed");
    assert_eq!(rows[3].1, "x");
    let same_prefix = edit_snippet(&text, "a".to_string(), Some("pa".to_string()), None, None);
    assert!(same_prefix.is_ok());
    assert_eq!(
        edit_snippet(&text, "zz".to_string(), Some("new".to_string()), None, None),
        Err(SnipError::NotFound("zz".to_string()))
    );
    let body = edit_snippet(&text, "b".to_string(), None, None, Some(lines(&["l1", "l2"]))).unwrap();
    let rows = decode_store(&body).unwrap().show_rows("b").unwrap();
    assert_eq!(rows[3].1, "l1\nl2");
}

#[test]
fn list_prefixes_one_per_line() {
    let text = store_with(&[("a", "pa", "first", "x")]);
    assert_eq!(list_entries(&text, Identifier::Prefix).unwrap(), "pa\n");
    assert_eq!(list_entries(&text, Identifier::Key).unwrap(), "a\n");
    assert_eq!(list_entries("{}", Identifier::Key).unwrap(), "");
}

#[test]
fn malformed_store_text_is_a_format_error() {
    let bad = [
        "not json",
        "[]",
        "{\"a\": 1}",
        "{\"a\": {\"prefix\": \"p\", \"description\": \"d\"}}",
        "{\"a\": {\"prefix\": \"p\", \"description\": \"d\", \"body\": [\"x\"], \"extra\": 1}}",
        "{\"a\": {\"prefix\": 1, \"description\": \"d\", \"body\": [\"x\"]}}",
        "{\"a\": {\"prefix\": \"p\", \"description\": \"d\", \"body\": [1]}}",
        "{\"a\": {\"prefix\": \"p\", \"description\": \"d\", \"body\": \"x\"}}",
        "   ",
    ];
    for text in bad {
        assert_eq!(remove_snippet(text, "a"), Err(SnipError::Format), "{}", text);
    }
    let good = "{\"a\": {\"prefix\": \"p\", \"description\": \"d\", \"body\": []}}";
    assert!(remove_snippet(good, "a").is_ok());
}

#[test]
fn encode_then_decode_gives_the_collection() {
    let text = store_with(&[
        ("a", "pa", "first \"quoted\"", "line\twith tab"),
        ("b", "pb", "second", "ünïcode"),
    ]);
    let store = decode_store(&text).unwrap();
    let again = encode_store(&store);
    assert_eq!(again, text);
    let back = decode_store(&again).unwrap();
    for key in ["a", "b"] {
        assert_eq!(back.show_rows(key).unwrap(), store.show_rows(key).unwrap());
    }
    assert_eq!(back.len(), 2);
}

#[test]
fn error_messages() {
    assert_eq!(SnipError::StoreUnavailable.message(), "Snippet file not found or is empty");
    assert_eq!(SnipError::Format.message(), "Failed to parse the snippets file");
    assert_eq!(
        SnipError::DuplicateKey("k".to_string()).message(),
        "A snippet with key 'k' already exists"
    );
    assert_eq!(
        SnipError::DuplicatePrefix("p".to_string()).message(),
        "A snippet with prefix 'p' already exists"
    );
    assert_eq!(SnipError::NoFieldsProvided.message(), "No fields provided for update");
    assert_eq!(SnipError::SameKey.message(), "The new key is the same as the old key");
}

#[test]
fn show_missing_key_fails() {
    let text = store_with(&[("a", "pa", "first", "x")]);
    assert_eq!(show_entry(&text, "b"), Err(SnipError::NotFound("b".to_string())));
}
