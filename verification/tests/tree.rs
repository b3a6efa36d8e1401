use cor_args::tree::find_key_recursive;
use cor_args::Node;

fn text(value: &str) -> Node {
    Node::Text(value.to_string())
}

fn scalar(value: &str) -> Node {
    Node::Scalar(value.to_string())
}

fn table(canonical: &str, entries: Vec<(&str, Node)>) -> Node {
    let mut owned = Vec::new();
    for (name, value) in entries {
        owned.push((name.to_string(), value));
    }
    Node::Table(canonical.to_string(), owned)
}

fn sequence(canonical: &str, items: Vec<Node>) -> Node {
    Node::Sequence(canonical.to_string(), items)
}

#[test]
fn search_prefers_the_direct_entry() {
    let document = table(
        "{..}",
        vec![("k", text("v1")), ("inner", table("{..}", vec![("k", text("v2"))]))],
    );
    assert_eq!(find_key_recursive(&document, "k"), Some("v1".to_string()));
}

#[test]
fn search_prefers_the_direct_entry_also_behind_a_nested_one() {
    let document = table(
        "{..}",
        vec![("inner", table("{..}", vec![("k", text("v2"))])), ("k", text("v1"))],
    );
    assert_eq!(find_key_recursive(&document, "k"), Some("v1".to_string()));
}

#[test]
fn search_goes_through_the_containers_in_order() {
    let document = table(
        "{..}",
        vec![
            ("a", table("{..}", vec![("x", scalar("1"))])),
            ("b", table("{..}", vec![("k", text("found"))])),
        ],
    );
    assert_eq!(find_key_recursive(&document, "k"), Some("found".to_string()));
}

#[test]
fn search_returns_the_first_match_of_a_sequence() {
    let document = sequence(
        "[..]",
        vec![table("{..}", vec![("k", text("first"))]), table("{..}", vec![("k", text("second"))])],
    );
    assert_eq!(find_key_recursive(&document, "k"), Some("first".to_string()));
}

#[test]
fn search_returns_a_scalar_in_its_canonical_text() {
    let document = table("{..}", vec![("k", scalar("123"))]);
    assert_eq!(find_key_recursive(&document, "k"), Some("123".to_string()));
}

#[test]
fn search_returns_a_composite_value_in_its_canonical_text() {
    let document = table(
        "{..}",
        vec![("k", table("{\"x\":1}", vec![("x", scalar("1"))])), ("l", sequence("[1]", vec![scalar("1")]))],
    );
    assert_eq!(find_key_recursive(&document, "k"), Some("{\"x\":1}".to_string()));
    assert_eq!(find_key_recursive(&document, "l"), Some("[1]".to_string()));
}

#[test]
fn search_finds_nothing_in_a_scalar() {
    assert_eq!(find_key_recursive(&text("k"), "k"), None);
    assert_eq!(find_key_recursive(&scalar("k"), "k"), None);
}

#[test]
fn search_finds_nothing_in_empty_containers() {
    assert_eq!(find_key_recursive(&table("{}", vec![]), "k"), None);
    assert_eq!(find_key_recursive(&sequence("[]", vec![]), "k"), None);
}

#[test]
fn search_takes_the_first_subtree_that_holds_the_key() {
    let document = table(
        "{..}",
        vec![
            ("a", table("{..}", vec![("deeper", table("{..}", vec![("k", text("deep"))]))])),
            ("b", table("{..}", vec![("k", text("shallow"))])),
        ],
    );
    assert_eq!(find_key_recursive(&document, "k"), Some("deep".to_string()));
}

#[test]
fn search_takes_the_first_of_two_entries_of_one_name() {
    let document = table("{..}", vec![("k", text("first")), ("k", text("second"))]);
    assert_eq!(find_key_recursive(&document, "k"), Some("first".to_string()));
}

#[test]
fn search_looks_into_sequences_below_tables() {
    let document = table(
        "{..}",
        vec![("list", sequence("[..]", vec![scalar("1"), table("{..}", vec![("k", text("v"))])]))],
    );
    assert_eq!(find_key_recursive(&document, "k"), Some("v".to_string()));
    assert_eq!(find_key_recursive(&document, "absent"), None);
}

#[test]
fn search_compares_whole_names() {
    let document = table("{..}", vec![("key", text("v")), ("k2", text("w"))]);
    assert_eq!(find_key_recursive(&document, "k"), None);
    assert_eq!(find_key_recursive(&document, "key"), Some("v".to_string()));
}

#[test]
fn rendered_is_the_text_that_a_value_carries() {
    assert_eq!(text("a").rendered(), "a".to_string());
    assert_eq!(scalar("1").rendered(), "1".to_string());
    assert_eq!(table("{}", vec![]).rendered(), "{}".to_string());
    assert_eq!(sequence("[]", vec![]).rendered(), "[]".to_string());
}
