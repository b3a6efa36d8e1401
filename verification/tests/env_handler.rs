use cor_args::{DefaultHandler, EnvHandler, Handler, Snapshot};

#[test]
fn test_retrieves_set_value_without_prefix() {
    let mut snapshot = Snapshot::new();
    snapshot.set_var("TEST_KEY", "test_value");
    let handler = EnvHandler::new();
    let actual = handler.handle_request("TEST_KEY", &snapshot);
    assert_eq!(actual, Some("test_value".to_string()));
}

#[test]
fn test_retrieves_set_value_with_prefix() {
    let mut snapshot = Snapshot::new();
    snapshot.set_var("TEST_KEY", "test_value");
    let handler = EnvHandler::new().prefix("TEST_");
    let actual = handler.handle_request("KEY", &snapshot);
    assert_eq!(actual, Some("test_value".to_string()));
}

#[test]
fn lib_test_returns_none_for_unset_value() {
    let snapshot = Snapshot::new();
    let handler = EnvHandler::new();
    let actual = handler.handle_request("UNSET_KEY", &snapshot);
    assert_eq!(actual, None);
}

#[test]
fn env_handler_test_next_handler_called() {
    let snapshot = Snapshot::new();
    let next_handler = Box::new(DefaultHandler::new("DEFAULT_VALUE"));
    let handler = EnvHandler::new().next(next_handler);
    let actual = handler.handle_request("UNSET_KEY", &snapshot);
    assert_eq!(actual, Some("DEFAULT_VALUE".to_string()));
}

#[test]
fn env_handler_puts_no_separator_after_the_prefix() {
    let mut snapshot = Snapshot::new();
    snapshot.set_var("TEST__KEY", "with a separator");
    snapshot.set_var("KEY", "without the prefix");
    let handler = EnvHandler::new().prefix("TEST_");
    assert_eq!(handler.handle_request("KEY", &snapshot), None);
    snapshot.set_var("TEST_KEY", "exact");
    assert_eq!(handler.handle_request("KEY", &snapshot), Some("exact".to_string()));
}

#[test]
fn env_handler_with_prefix_does_not_read_the_bare_key() {
    let mut snapshot = Snapshot::new();
    snapshot.set_var("KEY", "bare");
    let handler = EnvHandler::new().prefix("APP_");
    assert_eq!(handler.handle_request("KEY", &snapshot), None);
}

#[test]
fn env_handler_answers_before_its_successor() {
    let mut snapshot = Snapshot::new();
    snapshot.set_var("TEST_KEY", "test_value");
    let handler = EnvHandler::new().next(Box::new(DefaultHandler::new("DEFAULT_VALUE")));
    assert_eq!(handler.handle_request("TEST_KEY", &snapshot), Some("test_value".to_string()));
}

#[test]
fn env_handler_reads_the_variable_of_the_empty_key_under_its_prefix() {
    let mut snapshot = Snapshot::new();
    snapshot.set_var("APP", "whole");
    let handler = EnvHandler::new().prefix("APP");
    assert_eq!(handler.handle_request("", &snapshot), Some("whole".to_string()));
}

#[test]
fn env_handler_keeps_its_successor_when_given_a_prefix() {
    let snapshot = Snapshot::new();
    let handler = EnvHandler::new()
        .next(Box::new(DefaultHandler::new("DEFAULT_VALUE")))
        .prefix("APP_");
    assert_eq!(handler.handle_request("KEY", &snapshot), Some("DEFAULT_VALUE".to_string()));
}

#[test]
fn env_handler_takes_the_last_prefix_and_the_last_successor() {
    let mut snapshot = Snapshot::new();
    snapshot.set_var("B_KEY", "b");
    snapshot.set_var("A_KEY", "a");
    let handler = EnvHandler::new().prefix("A_").prefix("B_");
    assert_eq!(handler.handle_request("KEY", &snapshot), Some("b".to_string()));
    let relinked = EnvHandler::new()
        .next(Box::new(DefaultHandler::new("first")))
        .next(Box::new(DefaultHandler::new("second")));
    assert_eq!(relinked.handle_request("UNSET_KEY", &snapshot), Some("second".to_string()));
}
