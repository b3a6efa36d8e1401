use cor_args::Snapshot;

#[test]
fn snapshot_starts_empty() {
    let snapshot = Snapshot::new();
    assert_eq!(snapshot.var("PATH"), None);
    assert_eq!(snapshot.file("/etc/hostname"), None);
    assert_eq!(snapshot.var(""), None);
    assert_eq!(snapshot.file(""), None);
}

#[test]
fn snapshot_returns_what_was_recorded() {
    let mut snapshot = Snapshot::new();
    snapshot.set_var("NAME", "value");
    snapshot.set_file("path", "content\n");
    assert_eq!(snapshot.var("NAME"), Some("value".to_string()));
    assert_eq!(snapshot.file("path"), Some("content\n".to_string()));
}

#[test]
fn snapshot_keeps_variables_and_files_apart() {
    let mut snapshot = Snapshot::new();
    snapshot.set_var("NAME", "value");
    snapshot.set_file("path", "content");
    assert_eq!(snapshot.file("NAME"), None);
    assert_eq!(snapshot.var("path"), None);
}

#[test]
fn snapshot_replaces_an_earlier_record_of_the_same_name() {
    let mut snapshot = Snapshot::new();
    snapshot.set_var("NAME", "first");
    snapshot.set_var("OTHER", "other");
    snapshot.set_var("NAME", "second");
    assert_eq!(snapshot.var("NAME"), Some("second".to_string()));
    assert_eq!(snapshot.var("OTHER"), Some("other".to_string()));
    snapshot.set_file("path", "old");
    snapshot.set_file("path", "new");
    assert_eq!(snapshot.file("path"), Some("new".to_string()));
}

#[test]
fn snapshot_compares_whole_names() {
    let mut snapshot = Snapshot::new();
    snapshot.set_var("NAME", "value");
    assert_eq!(snapshot.var("NAM"), None);
    assert_eq!(snapshot.var("NAMES"), None);
    assert_eq!(snapshot.var("name"), None);
}
