use vstd::prelude::*;

verus! {

/// A document: scalars, tables of named values and sequences of values, nested
/// to any depth. Every value carries the text that stands for it when a lookup
/// returns it.
pub enum Node {
    /// A string, which stands for itself.
    Text(String),
    /// Any other scalar (a number, a boolean, the null value), in its
    /// canonical text.
    Scalar(String),
    /// A table: its canonical text, then its entries in the order in which they
    /// are searched. Where two entries bear one name, the first is the entry of
    /// that name.
    Table(String, Vec<(String, Node)>),
    /// A sequence: its canonical text, then its items in order.
    Sequence(String, Vec<Node>),
}

/// The mathematical form of a `Node`.
pub enum Tree {
    Text(Seq<char>),
    Scalar(Seq<char>),
    Table(Seq<char>, Seq<(Seq<char>, Tree)>),
    Sequence(Seq<char>, Seq<Tree>),
}

/// The tree that a node stands for.
pub open spec fn tree_of(node: Node) -> Tree
    decreases node,
{
    match node {
        Node::Text(text) => Tree::Text(text@),
        Node::Scalar(text) => Tree::Scalar(text@),
        Node::Table(text, entries) => Tree::Table(
            text@,
            Seq::new(
                entries@.len(),
                |i: int|
                    if 0 <= i < entries@.len() {
                        (entries@[i].0@, tree_of(entries@[i].1))
                    } else {
                        arbitrary()
                    },
            ),
        ),
        Node::Sequence(text, items) => Tree::Sequence(
            text@,
            Seq::new(
                items@.len(),
                |i: int|
                    if 0 <= i < items@.len() {
                        tree_of(items@[i])
                    } else {
                        arbitrary()
                    },
            ),
        ),
    }
}

impl View for Node {
    type V = Tree;

    open spec fn view(&self) -> Tree {
        tree_of(*self)
    }
}

/// The text that a lookup returns for a value: a string as it is, anything else
/// in its canonical text.
pub open spec fn rendering(tree: Tree) -> Seq<char> {
    match tree {
        Tree::Text(text) => text,
        Tree::Scalar(text) => text,
        Tree::Table(text, _) => text,
        Tree::Sequence(text, _) => text,
    }
}

/// The number of values directly below a value; a scalar has none.
pub open spec fn degree(tree: Tree) -> nat {
    match tree {
        Tree::Table(_, entries) => entries.len(),
        Tree::Sequence(_, items) => items.len(),
        _ => 0,
    }
}

/// The `i`-th value directly below a value.
pub open spec fn child(tree: Tree, i: int) -> Tree
    recommends
        0 <= i < degree(tree),
{
    match tree {
        Tree::Table(_, entries) => entries[i].1,
        Tree::Sequence(_, items) => items[i],
        _ => tree,
    }
}

/// The value of the first entry named `key`, among the entries from `start` on.
pub open spec fn entry_from(entries: Seq<(Seq<char>, Tree)>, key: Seq<char>, start: nat) -> Option<
    Tree,
>
    decreases entries.len() - start,
{
    if start >= entries.len() {
        None
    } else if entries[start as int].0 == key {
        Some(entries[start as int].1)
    } else {
        entry_from(entries, key, start + 1)
    }
}

/// The value that a table holds under `key` itself; nothing else holds one.
pub open spec fn direct(tree: Tree, key: Seq<char>) -> Option<Tree> {
    match tree {
        Tree::Table(_, entries) => entry_from(entries, key, 0),
        _ => None,
    }
}

/// The text that a search of `tree` for `key` returns: that of the value the
/// tree holds under `key` itself, else what the first of the values below it
/// returns that returns anything, each searched in the same way.
pub open spec fn search(tree: Tree, key: Seq<char>) -> Option<Seq<char>>
    decreases tree, degree(tree) + 1,
{
    match direct(tree, key) {
        Some(value) => Some(rendering(value)),
        None => search_from(tree, key, 0),
    }
}

/// What the first of the values below `tree`, from the `start`-th on, returns
/// that returns anything.
pub open spec fn search_from(tree: Tree, key: Seq<char>, start: nat) -> Option<Seq<char>>
    decreases tree, degree(tree) - start,
{
    if start >= degree(tree) {
        None
    } else {
        match search(child(tree, start as int), key) {
            Some(text) => Some(text),
            None => search_from(tree, key, start + 1),
        }
    }
}

/// Whether no entry of the table `tree` bears the name `key`; true of anything
/// that is not a table.
pub open spec fn unnamed(tree: Tree, key: Seq<char>) -> bool {
    tree matches Tree::Table(_, entries) ==> forall|j: int|
        0 <= j < entries.len() ==> (#[trigger] entries[j]).0 != key
}

proof fn lemma_entry_at(entries: Seq<(Seq<char>, Tree)>, key: Seq<char>, start: nat, i: int)
    requires
        start <= i < entries.len(),
        entries[i].0 == key,
        forall|j: int| start <= j < i ==> (#[trigger] entries[j]).0 != key,
    ensures
        entry_from(entries, key, start) == Some(entries[i].1),
    decreases i - start,
{
    if start < i {
        assert(entries[start as int].0 != key);
        lemma_entry_at(entries, key, start + 1, i);
    }
}

proof fn lemma_entry_absent(entries: Seq<(Seq<char>, Tree)>, key: Seq<char>, start: nat)
    requires
        forall|j: int| start <= j < entries.len() ==> (#[trigger] entries[j]).0 != key,
    ensures
        entry_from(entries, key, start) is None,
    decreases entries.len() - start,
{
    if start < entries.len() {
        assert(entries[start as int].0 != key);
        lemma_entry_absent(entries, key, start + 1);
    }
}

proof fn lemma_search_from_at(tree: Tree, key: Seq<char>, start: nat, i: int)
    requires
        start <= i < degree(tree),
        search(child(tree, i), key) is Some,
        forall|j: int| start <= j < i ==> search(#[trigger] child(tree, j), key) is None,
    ensures
        search_from(tree, key, start) == search(child(tree, i), key),
    decreases i - start,
{
    if start < i {
        assert(search(child(tree, start as int), key) is None);
        lemma_search_from_at(tree, key, start + 1, i);
    }
}

proof fn lemma_search_from_absent(tree: Tree, key: Seq<char>, start: nat)
    requires
        forall|j: int| start <= j < degree(tree) ==> search(#[trigger] child(tree, j), key) is None,
    ensures
        search_from(tree, key, start) is None,
    decreases degree(tree) - start,
{
    if start < degree(tree) {
        assert(search(child(tree, start as int), key) is None);
        lemma_search_from_absent(tree, key, start + 1);
    }
}

/// A table that holds a value under the key itself returns that value, whatever
/// lies deeper: the first entry of that name decides.
pub proof fn lemma_direct_match_wins(
    text: Seq<char>,
    entries: Seq<(Seq<char>, Tree)>,
    key: Seq<char>,
    i: int,
)
    requires
        0 <= i < entries.len(),
        entries[i].0 == key,
        forall|j: int| 0 <= j < i ==> (#[trigger] entries[j]).0 != key,
    ensures
        search(Tree::Table(text, entries), key) == Some(rendering(entries[i].1)),
{
    lemma_entry_at(entries, key, 0, i);
}

/// Where the value holds nothing under the key itself, the first value below it
/// that returns anything decides, also where a later one holds the key less
/// deep.
pub proof fn lemma_first_subtree_wins(tree: Tree, key: Seq<char>, i: int)
    requires
        unnamed(tree, key),
        0 <= i < degree(tree),
        search(child(tree, i), key) is Some,
        forall|j: int| 0 <= j < i ==> search(#[trigger] child(tree, j), key) is None,
    ensures
        search(tree, key) == search(child(tree, i), key),
{
    if let Tree::Table(_, entries) = tree {
        lemma_entry_absent(entries, key, 0);
    }
    lemma_search_from_at(tree, key, 0, i);
}

/// Where the value holds nothing under the key itself and no value below it
/// returns anything, the search returns nothing; so it does for every scalar.
pub proof fn lemma_nothing_found(tree: Tree, key: Seq<char>)
    requires
        unnamed(tree, key),
        forall|j: int| 0 <= j < degree(tree) ==> search(#[trigger] child(tree, j), key) is None,
    ensures
        search(tree, key) is None,
{
    if let Tree::Table(_, entries) = tree {
        lemma_entry_absent(entries, key, 0);
    }
    lemma_search_from_absent(tree, key, 0);
}

/// Whether some table of the document, at any depth, has an entry named `key`.
pub open spec fn holds(tree: Tree, key: Seq<char>) -> bool
    decreases tree,
{
    !unnamed(tree, key) || exists|j: int|
        0 <= j < degree(tree) && holds(#[trigger] child(tree, j), key)
}

proof fn lemma_entry_some(entries: Seq<(Seq<char>, Tree)>, key: Seq<char>, start: nat)
    ensures
        entry_from(entries, key, start) is Some <==> exists|j: int|
            start <= j < entries.len() && (#[trigger] entries[j]).0 == key,
    decreases entries.len() - start,
{
    if start < entries.len() {
        lemma_entry_some(entries, key, start + 1);
        if entries[start as int].0 != key {
            if exists|j: int| start <= j < entries.len() && (#[trigger] entries[j]).0 == key {
                let j = choose|j: int| start <= j < entries.len() && (#[trigger] entries[j]).0 == key;
                assert(start + 1 <= j < entries.len() && entries[j].0 == key);
            }
        }
    }
}

proof fn lemma_search_from_some(tree: Tree, key: Seq<char>, start: nat)
    ensures
        search_from(tree, key, start) is Some <==> exists|j: int|
            start <= j < degree(tree) && search(#[trigger] child(tree, j), key) is Some,
    decreases degree(tree) - start,
{
    if start < degree(tree) {
        lemma_search_from_some(tree, key, start + 1);
        if search(child(tree, start as int), key) is None {
            if exists|j: int|
                start <= j < degree(tree) && search(#[trigger] child(tree, j), key) is Some {
                let j = choose|j: int|
                    start <= j < degree(tree) && search(#[trigger] child(tree, j), key) is Some;
                assert(start + 1 <= j < degree(tree) && search(child(tree, j), key) is Some);
            }
        }
    }
}

/// The search misses nothing: it returns a value exactly where some table of
/// the document, at any depth, has an entry named `key`.
pub proof fn lemma_search_finds_what_is_held(tree: Tree, key: Seq<char>)
    ensures
        search(tree, key) is Some <==> holds(tree, key),
    decreases tree,
{
    if let Tree::Table(_, entries) = tree {
        lemma_entry_some(entries, key, 0);
    }
    lemma_search_from_some(tree, key, 0);
    assert forall|j: int| 0 <= j < degree(tree) implies (search(
        #[trigger] child(tree, j),
        key,
    ) is Some <==> holds(child(tree, j), key)) by {
        lemma_search_finds_what_is_held(child(tree, j), key);
    }
}

/// Whether some table of the document, at any depth, has an entry named `key`
/// whose value stands as `text`.
pub open spec fn holds_as(tree: Tree, key: Seq<char>, text: Seq<char>) -> bool
    decreases tree,
{
    ||| tree matches Tree::Table(_, entries) && exists|j: int|
        0 <= j < entries.len() && (#[trigger] entries[j]).0 == key && rendering(entries[j].1)
            == text
    ||| exists|j: int| 0 <= j < degree(tree) && holds_as(#[trigger] child(tree, j), key, text)
}

proof fn lemma_entry_is_named(entries: Seq<(Seq<char>, Tree)>, key: Seq<char>, start: nat)
    requires
        entry_from(entries, key, start) is Some,
    ensures
        exists|j: int|
            start <= j < entries.len() && (#[trigger] entries[j]).0 == key && entries[j].1
                == entry_from(entries, key, start)->0,
    decreases entries.len() - start,
{
    if entries[start as int].0 != key {
        lemma_entry_is_named(entries, key, start + 1);
    }
}

proof fn lemma_search_from_is_below(tree: Tree, key: Seq<char>, start: nat)
    requires
        search_from(tree, key, start) is Some,
    ensures
        exists|j: int|
            start <= j < degree(tree) && search(#[trigger] child(tree, j), key) == search_from(
                tree,
                key,
                start,
            ),
    decreases degree(tree) - start,
{
    if search(child(tree, start as int), key) is None {
        lemma_search_from_is_below(tree, key, start + 1);
    }
}

/// The search invents nothing: what it returns is the text of a value that
/// some table of the document holds under `key`.
pub proof fn lemma_search_returns_what_is_held(tree: Tree, key: Seq<char>)
    requires
        search(tree, key) is Some,
    ensures
        holds_as(tree, key, search(tree, key)->0),
    decreases tree,
{
    if direct(tree, key) is Some {
        lemma_entry_is_named(tree->Table_1, key, 0);
    } else {
        lemma_search_from_is_below(tree, key, 0);
        let j = choose|j: int|
            0 <= j < degree(tree) && search(#[trigger] child(tree, j), key) == search_from(
                tree,
                key,
                0,
            );
        lemma_search_returns_what_is_held(child(tree, j), key);
    }
}

/// The text of a scalar; a table or a sequence has none.
pub open spec fn scalar_text(tree: Tree) -> Option<Seq<char>> {
    match tree {
        Tree::Text(text) => Some(text),
        Tree::Scalar(text) => Some(text),
        _ => None,
    }
}

/// Whether some table of the document, at any depth, has an entry named `name`
/// whose value is the scalar of the text `text`, or, where `text` is `None`, a
/// table or a sequence.
pub open spec fn occurs(tree: Tree, name: Seq<char>, text: Option<Seq<char>>) -> bool
    decreases tree,
{
    ||| tree matches Tree::Table(_, entries) && exists|j: int|
        0 <= j < entries.len() && (#[trigger] entries[j]).0 == name && scalar_text(entries[j].1)
            == text
    ||| exists|j: int| 0 <= j < degree(tree) && occurs(#[trigger] child(tree, j), name, text)
}

/// What a document holds, whatever the order of its tables: every entry at any
/// depth, by its name, with the text of its value where that is a scalar.
pub open spec fn contents(tree: Tree) -> Set<(Seq<char>, Option<Seq<char>>)> {
    Set::new(|entry: (Seq<char>, Option<Seq<char>>)| occurs(tree, entry.0, entry.1))
}

proof fn lemma_holds_occurs(tree: Tree, key: Seq<char>)
    ensures
        holds(tree, key) <==> exists|text: Option<Seq<char>>| occurs(tree, key, text),
    decreases tree,
{
    assert forall|j: int| 0 <= j < degree(tree) implies (holds(#[trigger] child(tree, j), key)
        <==> exists|text: Option<Seq<char>>| occurs(child(tree, j), key, text)) by {
        lemma_holds_occurs(child(tree, j), key);
    }
    if holds(tree, key) {
        if !unnamed(tree, key) {
            let entries = tree->Table_1;
            let j = choose|j: int| 0 <= j < entries.len() && (#[trigger] entries[j]).0 == key;
            assert(occurs(tree, key, scalar_text(entries[j].1)));
        } else {
            let j = choose|j: int| 0 <= j < degree(tree) && holds(#[trigger] child(tree, j), key);
            let text = choose|text: Option<Seq<char>>| occurs(child(tree, j), key, text);
            assert(occurs(tree, key, text));
        }
    }
    if exists|text: Option<Seq<char>>| occurs(tree, key, text) {
        let text = choose|text: Option<Seq<char>>| occurs(tree, key, text);
        if exists|j: int| 0 <= j < degree(tree) && occurs(#[trigger] child(tree, j), key, text) {
            let j = choose|j: int|
                0 <= j < degree(tree) && occurs(#[trigger] child(tree, j), key, text);
            assert(holds(child(tree, j), key));
        }
    }
}

proof fn lemma_held_occurs(tree: Tree, key: Seq<char>, found: Seq<char>)
    requires
        holds_as(tree, key, found),
    ensures
        exists|text: Option<Seq<char>>|
            #[trigger] occurs(tree, key, text) && (text is Some ==> text == Some(found)),
    decreases tree,
{
    if tree matches Tree::Table(_, entries) && exists|j: int|
        0 <= j < entries.len() && (#[trigger] entries[j]).0 == key && rendering(entries[j].1)
            == found {
        let entries = tree->Table_1;
        let j = choose|j: int|
            0 <= j < entries.len() && (#[trigger] entries[j]).0 == key && rendering(entries[j].1)
                == found;
        assert(occurs(tree, key, scalar_text(entries[j].1)));
    } else {
        let j = choose|j: int|
            0 <= j < degree(tree) && holds_as(#[trigger] child(tree, j), key, found);
        lemma_held_occurs(child(tree, j), key, found);
        let text = choose|text: Option<Seq<char>>|
            #[trigger] occurs(child(tree, j), key, text) && (text is Some ==> text == Some(found));
        assert(occurs(tree, key, text));
    }
}

/// The order of the tables does not matter to a key that has one answer: where
/// every entry named `key`, at any depth, holds the scalar of the text `text`,
/// and there is such an entry, the search returns `text`.
pub proof fn lemma_one_answer(tree: Tree, key: Seq<char>, text: Seq<char>)
    requires
        contents(tree).contains((key, Some(text))),
        forall|other: Option<Seq<char>>| #[trigger]
            contents(tree).contains((key, other)) ==> other == Some(text),
    ensures
        search(tree, key) == Some(text),
{
    assert(occurs(tree, key, Some(text)));
    lemma_holds_occurs(tree, key);
    lemma_search_finds_what_is_held(tree, key);
    lemma_search_returns_what_is_held(tree, key);
    let found = search(tree, key)->0;
    lemma_held_occurs(tree, key, found);
    let other = choose|other: Option<Seq<char>>|
        #[trigger] occurs(tree, key, other) && (other is Some ==> other == Some(found));
    assert(contents(tree).contains((key, other)));
}

/// The order of the tables does not matter to a key that is nowhere: where no
/// entry at any depth is named `key`, the search returns nothing.
pub proof fn lemma_no_answer(tree: Tree, key: Seq<char>)
    requires
        forall|other: Option<Seq<char>>| !(#[trigger] contents(tree).contains((key, other))),
    ensures
        search(tree, key) is None,
{
    lemma_holds_occurs(tree, key);
    lemma_search_finds_what_is_held(tree, key);
    if holds(tree, key) {
        let text = choose|text: Option<Seq<char>>| occurs(tree, key, text);
        assert(contents(tree).contains((key, text)));
    }
}

/// One step down a document: into the entry of a table by its name, or into
/// the item of a sequence by its place.
pub enum Step {
    Name(Seq<char>),
    Item(int),
}

/// Whether `path`, taken from the top of the document, leads to a scalar of the
/// text `text`, or, where `text` is `None`, to a table or a sequence. The empty
/// path leads to the document itself.
pub open spec fn leads(tree: Tree, path: Seq<Step>, text: Option<Seq<char>>) -> bool
    decreases path.len(),
{
    if path.len() == 0 {
        scalar_text(tree) == text
    } else {
        match (tree, path[0]) {
            (Tree::Table(_, entries), Step::Name(name)) => exists|j: int|
                0 <= j < entries.len() && (#[trigger] entries[j]).0 == name && leads(
                    entries[j].1,
                    path.drop_first(),
                    text,
                ),
            (Tree::Sequence(_, items), Step::Item(i)) => 0 <= i < items.len() && leads(
                items[i],
                path.drop_first(),
                text,
            ),
            _ => false,
        }
    }
}

/// How a document is laid out, whatever the order of its tables: every path
/// that leads to a value, with the text of that value where it is a scalar.
pub open spec fn layout(tree: Tree) -> Set<(Seq<Step>, Option<Seq<char>>)> {
    Set::new(|place: (Seq<Step>, Option<Seq<char>>)| leads(tree, place.0, place.1))
}

/// The entries that a layout shows, without their depth: the last name of every
/// path that ends in a name, with the text found there.
pub open spec fn flattened(places: Set<(Seq<Step>, Option<Seq<char>>)>) -> Set<
    (Seq<char>, Option<Seq<char>>),
> {
    Set::new(
        |entry: (Seq<char>, Option<Seq<char>>)|
            exists|path: Seq<Step>|
                path.len() > 0 && path.last() == Step::Name(entry.0) && #[trigger] places.contains(
                    (path, entry.1),
                ),
    )
}

proof fn lemma_occurs_path(tree: Tree, name: Seq<char>, text: Option<Seq<char>>) -> (path: Seq<
    Step,
>)
    requires
        occurs(tree, name, text),
    ensures
        path.len() > 0,
        path.last() == Step::Name(name),
        leads(tree, path, text),
    decreases tree,
{
    if tree matches Tree::Table(_, entries) && exists|j: int|
        0 <= j < entries.len() && (#[trigger] entries[j]).0 == name && scalar_text(entries[j].1)
            == text {
        let entries = tree->Table_1;
        let j = choose|j: int|
            0 <= j < entries.len() && (#[trigger] entries[j]).0 == name && scalar_text(
                entries[j].1,
            ) == text;
        let path = seq![Step::Name(name)];
        assert(path.drop_first().len() == 0);
        assert(leads(entries[j].1, path.drop_first(), text));
        path
    } else {
        let j = choose|j: int| 0 <= j < degree(tree) && occurs(#[trigger] child(tree, j), name, text);
        let below = lemma_occurs_path(child(tree, j), name, text);
        let step = match tree {
            Tree::Table(_, entries) => Step::Name(entries[j].0),
            _ => Step::Item(j),
        };
        let path = seq![step] + below;
        assert(path.drop_first() =~= below);
        assert(path.last() == below.last());
        match tree {
            Tree::Table(_, entries) => {
                assert(entries[j].0 == entries[j].0 && leads(entries[j].1, path.drop_first(), text));
            },
            Tree::Sequence(_, items) => {
                assert(leads(items[j], path.drop_first(), text));
            },
            _ => {},
        }
        path
    }
}

proof fn lemma_path_occurs(tree: Tree, path: Seq<Step>, name: Seq<char>, text: Option<Seq<char>>)
    requires
        path.len() > 0,
        path.last() == Step::Name(name),
        leads(tree, path, text),
    ensures
        occurs(tree, name, text),
    decreases path.len(),
{
    let rest = path.drop_first();
    match (tree, path[0]) {
        (Tree::Table(_, entries), Step::Name(first)) => {
            let j = choose|j: int|
                0 <= j < entries.len() && (#[trigger] entries[j]).0 == first && leads(
                    entries[j].1,
                    rest,
                    text,
                );
            if rest.len() == 0 {
                assert(first == name);
            } else {
                assert(rest.last() == path.last());
                lemma_path_occurs(entries[j].1, rest, name, text);
                assert(occurs(child(tree, j), name, text));
            }
        },
        (Tree::Sequence(_, items), Step::Item(i)) => {
            assert(rest.len() > 0) by {
                if rest.len() == 0 {
                    assert(path.last() == path[0]);
                }
            }
            assert(rest.last() == path.last());
            lemma_path_occurs(items[i], rest, name, text);
            assert(occurs(child(tree, i), name, text));
        },
        _ => {},
    }
}

/// The layout of a document fixes the entries that it holds at any depth.
pub proof fn lemma_layout_fixes_contents(tree: Tree)
    ensures
        contents(tree) == flattened(layout(tree)),
{
    assert forall|entry: (Seq<char>, Option<Seq<char>>)|
        contents(tree).contains(entry) <==> flattened(layout(tree)).contains(entry) by {
        if contents(tree).contains(entry) {
            let path = lemma_occurs_path(tree, entry.0, entry.1);
            assert(layout(tree).contains((path, entry.1)));
        }
        if flattened(layout(tree)).contains(entry) {
            let path = choose|path: Seq<Step>|
                path.len() > 0 && path.last() == Step::Name(entry.0) && #[trigger] layout(
                    tree,
                ).contains((path, entry.1));
            lemma_path_occurs(tree, path, entry.0, entry.1);
        }
    }
    assert(contents(tree) =~= flattened(layout(tree)));
}

/// The order of the tables does not matter to a key that the document holds at
/// its top: where every entry of the top table named `key` holds the scalar of
/// the text `text`, and there is such an entry, the search returns `text`,
/// whatever lies deeper.
pub proof fn lemma_top_answer(tree: Tree, key: Seq<char>, text: Seq<char>)
    requires
        layout(tree).contains((seq![Step::Name(key)], Some(text))),
        forall|other: Option<Seq<char>>| #[trigger]
            layout(tree).contains((seq![Step::Name(key)], other)) ==> other == Some(text),
    ensures
        search(tree, key) == Some(text),
{
    let path = seq![Step::Name(key)];
    assert(leads(tree, path, Some(text)));
    assert(path.drop_first().len() == 0);
    let entries = tree->Table_1;
    lemma_entry_some(entries, key, 0);
    lemma_entry_is_named(entries, key, 0);
    let j = choose|j: int|
        0 <= j < entries.len() && (#[trigger] entries[j]).0 == key && entries[j].1 == entry_from(
            entries,
            key,
            0,
        )->0;
    assert(leads(entries[j].1, path.drop_first(), scalar_text(entries[j].1)));
    assert(leads(tree, path, scalar_text(entries[j].1)));
    assert(layout(tree).contains((path, scalar_text(entries[j].1))));
}

impl Node {
    /// The text that a lookup returns for this value.
    pub fn rendered(&self) -> (text: String)
        ensures
            text@ == rendering(self@),
    {
        match self {
            Node::Text(text) => text.clone(),
            Node::Scalar(text) => text.clone(),
            Node::Table(text, _) => text.clone(),
            Node::Sequence(text, _) => text.clone(),
        }
    }
}

/// Searches a document for `key`, depth first: a table answers with the value
/// it holds under `key` itself before anything below it is looked at; else the
/// values below are searched in order, and the first that returns anything
/// decides.
pub fn find_key_recursive(node: &Node, key: &str) -> (found: Option<String>)
    ensures
        found.deep_view() == search(node@, key@),
    decreases node,
{
    let ghost tree = node@;
    match node {
        Node::Table(_, entries) => {
            let wanted = key.to_owned();
            let ghost below = tree->Table_1;
            let mut i: usize = 0;
            while i < entries.len()
                invariant
                    i <= entries.len(),
                    wanted@ == key@,
                    tree == node@,
                    below.len() == entries@.len(),
                    forall|j: int|
                        0 <= j < below.len() ==> below[j] == (entries@[j].0@, entries@[j].1@),
                    direct(tree, key@) == entry_from(below, key@, i as nat),
                decreases entries.len() - i,
            {
                if entries[i].0 == wanted {
                    return Some(entries[i].1.rendered());
                }
                i += 1;
            }
            let mut i: usize = 0;
            while i < entries.len()
                invariant
                    i <= entries.len(),
                    node matches Node::Table(_, e) && e == entries,
                    tree == node@,
                    degree(tree) == entries@.len(),
                    forall|j: int| 0 <= j < entries@.len() ==> child(tree, j) == entries@[j].1@,
                    search(tree, key@) == search_from(tree, key@, i as nat),
                decreases entries.len() - i,
            {
                let found = find_key_recursive(&entries[i].1, key);
                if found.is_some() {
                    return found;
                }
                i += 1;
            }
            None
        },
        Node::Sequence(_, items) => {
            let mut i: usize = 0;
            while i < items.len()
                invariant
                    i <= items.len(),
                    node matches Node::Sequence(_, e) && e == items,
                    tree == node@,
                    degree(tree) == items@.len(),
                    forall|j: int| 0 <= j < items@.len() ==> child(tree, j) == items@[j]@,
                    search(tree, key@) == search_from(tree, key@, i as nat),
                decreases items.len() - i,
            {
                let found = find_key_recursive(&items[i], key);
                if found.is_some() {
                    return found;
                }
                i += 1;
            }
            None
        },
        _ => None,
    }
}

} // verus!
