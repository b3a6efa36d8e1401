use cor_args::{DefaultHandler, Handler, JSONFileHandler, Snapshot};

fn snapshot_with(path: &str, content: &str) -> Snapshot {
    let mut snapshot = Snapshot::new();
    snapshot.set_file(path, content);
    snapshot
}

fn line(text: String) -> String {
    let mut content = text;
    content.push('\n');
    content
}

#[test]
fn lib_test_returns_none_for_nonexistent_file() {
    let handler = JSONFileHandler::new("");
    let result = handler.handle_request("example", &Snapshot::new());
    assert_eq!(result, None);
}

#[test]
fn lib_test_next_handler_called() {
    let next_handler = Box::new(DefaultHandler::new("DEFAULT_VALUE"));
    let handler = JSONFileHandler::new("").next(next_handler);
    let actual = handler.handle_request("example", &Snapshot::new());
    assert_eq!(actual, Some("DEFAULT_VALUE".to_string()));
}

#[test]
fn test_retrieves_set_value_number() {
    let snapshot = snapshot_with("file.json", &line(format!(r#"{{"test_key": 123}}"#)));

    let handler = JSONFileHandler::new("file.json");
    let actual = handler.handle_request("test_key", &snapshot);
    assert_eq!(actual, Some("123".to_string()));
}

#[test]
fn test_retrieves_set_value_string() {
    let snapshot = snapshot_with("file.json", &line(format!(r#"{{"test_key": "example"}}"#)));

    let handler = JSONFileHandler::new("file.json");
    let actual = handler.handle_request("test_key", &snapshot);
    assert_eq!(actual, Some("example".to_string()));
}

#[test]
fn test_retrieves_set_value_nested_object() {
    let snapshot = snapshot_with(
        "file.json",
        &line(format!(r#"{{"test_obj": {{"test_key": "example"}} }}"#)),
    );

    let handler = JSONFileHandler::new("file.json");
    let actual = handler.handle_request("test_key", &snapshot);
    assert_eq!(actual, Some("example".to_string()));
}

#[test]
fn test_retrieves_set_value_in_array() {
    let snapshot = snapshot_with("file.json", &line(format!(r#"[{{"test_key": "example"}}]"#)));

    let handler = JSONFileHandler::new("file.json");
    let actual = handler.handle_request("test_key", &snapshot);
    assert_eq!(actual, Some("example".to_string()));
}

#[test]
fn json_direct_match_wins_over_nested_match() {
    let snapshot = snapshot_with("file.json", r#"{"k": "v1", "inner": {"k": "v2"}}"#);
    let handler = JSONFileHandler::new("file.json");
    assert_eq!(handler.handle_request("k", &snapshot), Some("v1".to_string()));
}

#[test]
fn json_search_descends_into_containers_in_order() {
    let snapshot = snapshot_with("file.json", r#"{"a": {"x": 1}, "b": {"k": "found"}}"#);
    let handler = JSONFileHandler::new("file.json");
    assert_eq!(handler.handle_request("k", &snapshot), Some("found".to_string()));
}

#[test]
fn json_array_returns_its_first_match() {
    let snapshot = snapshot_with("file.json", r#"[{"k": "first"}, {"k": "second"}]"#);
    let handler = JSONFileHandler::new("file.json");
    assert_eq!(handler.handle_request("k", &snapshot), Some("first".to_string()));
}

#[test]
fn json_number_is_returned_as_text() {
    let snapshot = snapshot_with("file.json", r#"{"k": 123}"#);
    let handler = JSONFileHandler::new("file.json");
    assert_eq!(handler.handle_request("k", &snapshot), Some("123".to_string()));
}

#[test]
fn json_other_scalars_are_returned_in_their_canonical_text() {
    let snapshot = snapshot_with(
        "file.json",
        r#"{"yes": true, "no": false, "nothing": null, "negative": -7, "text": "a \"b\""}"#,
    );
    let handler = JSONFileHandler::new("file.json");
    assert_eq!(handler.handle_request("yes", &snapshot), Some("true".to_string()));
    assert_eq!(handler.handle_request("no", &snapshot), Some("false".to_string()));
    assert_eq!(handler.handle_request("nothing", &snapshot), Some("null".to_string()));
    assert_eq!(handler.handle_request("negative", &snapshot), Some("-7".to_string()));
    assert_eq!(handler.handle_request("text", &snapshot), Some("a \"b\"".to_string()));
}

#[test]
fn json_composite_values_are_returned_in_their_canonical_text() {
    let snapshot = snapshot_with(
        "file.json",
        r#"{"table": {"name": "x", "count": 2}, "list": [1, "two", null]}"#,
    );
    let handler = JSONFileHandler::new("file.json");
    assert_eq!(
        handler.handle_request("table", &snapshot),
        Some(r#"{"count":2,"name":"x"}"#.to_string())
    );
    assert_eq!(handler.handle_request("list", &snapshot), Some(r#"[1,"two",null]"#.to_string()));
}

#[test]
fn json_first_subtree_wins_over_a_shallower_match_in_a_later_one() {
    let snapshot = snapshot_with(
        "file.json",
        r#"{"a": {"deeper": {"k": "deep"}}, "b": {"k": "shallow"}}"#,
    );
    let handler = JSONFileHandler::new("file.json");
    assert_eq!(handler.handle_request("k", &snapshot), Some("deep".to_string()));
}

#[test]
fn json_without_the_key_ends_the_lookup() {
    let snapshot = snapshot_with("file.json", r#"{"other": 1}"#);
    let handler = JSONFileHandler::new("file.json").next(Box::new(DefaultHandler::new("unused")));
    assert_eq!(handler.handle_request("k", &snapshot), None);
}

#[test]
fn json_scalar_document_holds_no_key() {
    let snapshot = snapshot_with("file.json", "123");
    let handler = JSONFileHandler::new("file.json").next(Box::new(DefaultHandler::new("unused")));
    assert_eq!(handler.handle_request("123", &snapshot), None);
    assert_eq!(handler.handle_request("", &snapshot), None);
}

#[test]
fn json_malformed_text_passes_to_the_successor() {
    let snapshot = snapshot_with("file.json", r#"{"k": "#);
    let handler =
        JSONFileHandler::new("file.json").next(Box::new(DefaultHandler::new("DEFAULT_VALUE")));
    assert_eq!(handler.handle_request("k", &snapshot), Some("DEFAULT_VALUE".to_string()));
}

#[test]
fn json_malformed_text_without_successor_returns_nothing() {
    let snapshot = snapshot_with("file.json", "not json");
    let handler = JSONFileHandler::new("file.json");
    assert_eq!(handler.handle_request("k", &snapshot), None);
}

#[test]
fn json_unreadable_file_returns_what_the_successor_returns() {
    let handler = JSONFileHandler::new("missing.json").next(Box::new(DefaultHandler::new("123")));
    assert_eq!(handler.handle_request("k", &Snapshot::new()), Some("123".to_string()));
}

#[test]
fn json_empty_key_is_searched_like_any_other() {
    let snapshot = snapshot_with("file.json", r#"{"outer": {"": "unnamed"}}"#);
    let handler = JSONFileHandler::new("file.json");
    assert_eq!(handler.handle_request("", &snapshot), Some("unnamed".to_string()));
}

#[test]
fn json_search_is_public_on_the_handler() {
    let document = cor_args::Node::Table(
        String::from("{\"k\":1}"),
        vec![(String::from("k"), cor_args::Node::Scalar(String::from("1")))],
    );
    assert_eq!(JSONFileHandler::find_key_recursive(&document, "k"), Some("1".to_string()));
    assert_eq!(JSONFileHandler::find_key_recursive(&document, "absent"), None);
}
