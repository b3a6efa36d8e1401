use crate::json::json_document;
use crate::snapshot::{same_at, Outside, Read};
use crate::tree::{search, Tree};
use vstd::prelude::*;

verus! {

/// What one source says of a key.
pub enum Outcome {
    /// The source holds this value for the key.
    Found(Seq<char>),
    /// The source has read its document and the key is not in it: the lookup
    /// ends here without a value.
    Missing,
    /// The source cannot answer: the lookup goes on to the source that follows.
    Pass,
}

/// One source of a chain, as the lookup sees it.
pub enum Link {
    /// Always answers with its value.
    Terminal(Seq<char>),
    /// Command-line arguments, each value by the name of its argument.
    Arguments(Map<Seq<char>, Seq<char>>),
    /// The environment variable named by this prefix followed by the key.
    Environment(Seq<char>),
    /// The whole text of the file at this path.
    RawFile(Seq<char>),
    /// The JSON document in the file at this path.
    JsonFile(Seq<char>),
    /// A document held since the source was made, if one could be read.
    Document(Option<Tree>),
}

/// What a document says of a key; without a document the source passes.
pub open spec fn consult(document: Option<Tree>, key: Seq<char>) -> Outcome {
    match document {
        Some(tree) => match search(tree, key) {
            Some(text) => Outcome::Found(text),
            None => Outcome::Missing,
        },
        None => Outcome::Pass,
    }
}

/// What a single source says of a key, given the outside.
pub open spec fn found(link: Link, key: Seq<char>, outside: Outside) -> Outcome {
    match link {
        Link::Terminal(value) => Outcome::Found(value),
        Link::Arguments(values) => if values.contains_key(key) {
            Outcome::Found(values[key])
        } else {
            Outcome::Pass
        },
        Link::Environment(prefix) => if outside.vars.contains_key(prefix + key) {
            Outcome::Found(outside.vars[prefix + key])
        } else {
            Outcome::Pass
        },
        Link::RawFile(path) => if outside.files.contains_key(path) {
            Outcome::Found(outside.files[path])
        } else {
            Outcome::Pass
        },
        Link::JsonFile(path) => if outside.files.contains_key(path) {
            consult(json_document(outside.files[path]), key)
        } else {
            Outcome::Pass
        },
        Link::Document(document) => consult(document, key),
    }
}

/// What a chain says of a key: the outcome of its first source that does not
/// pass, and `Pass` where every source passes.
pub open spec fn walk(links: Seq<Link>, key: Seq<char>, outside: Outside) -> Outcome
    decreases links.len(),
{
    if links.len() == 0 {
        Outcome::Pass
    } else {
        match found(links[0], key, outside) {
            Outcome::Pass => walk(links.drop_first(), key, outside),
            outcome => outcome,
        }
    }
}

/// The value that a lookup of `key` along the chain returns.
pub open spec fn resolve(links: Seq<Link>, key: Seq<char>, outside: Outside) -> Option<Seq<char>> {
    match walk(links, key, outside) {
        Outcome::Found(value) => Some(value),
        _ => None,
    }
}

/// What a single source reads of the outside when it is asked for a key.
pub open spec fn reads_of(link: Link, key: Seq<char>) -> Seq<Read> {
    match link {
        Link::Environment(prefix) => seq![Read::Var(prefix + key)],
        Link::RawFile(path) => seq![Read::File(path)],
        Link::JsonFile(path) => seq![Read::File(path)],
        _ => Seq::empty(),
    }
}

/// What a lookup of `key` along the chain may read of the outside, source by
/// source.
pub open spec fn reads(links: Seq<Link>, key: Seq<char>) -> Seq<Read>
    decreases links.len(),
{
    if links.len() == 0 {
        Seq::empty()
    } else {
        reads_of(links[0], key) + reads(links.drop_first(), key)
    }
}

/// A lookup reads nothing else: in two outsides that show the same under each
/// read of the chain, it ends in the same way.
pub proof fn lemma_lookup_reads_nothing_else(
    links: Seq<Link>,
    key: Seq<char>,
    a: Outside,
    b: Outside,
)
    requires
        forall|i: int|
            0 <= i < reads(links, key).len() ==> same_at(#[trigger] reads(links, key)[i], a, b),
    ensures
        walk(links, key, a) == walk(links, key, b),
        resolve(links, key, a) == resolve(links, key, b),
    decreases links.len(),
{
    if links.len() > 0 {
        let own = reads_of(links[0], key);
        let later = reads(links.drop_first(), key);
        assert forall|i: int| 0 <= i < later.len() implies same_at(#[trigger] later[i], a, b) by {
            assert(reads(links, key)[own.len() + i] == later[i]);
        }
        if own.len() > 0 {
            assert(reads(links, key)[0] == own[0]);
        }
        lemma_lookup_reads_nothing_else(links.drop_first(), key, a, b);
    }
}

/// The lookup ends at the first source that does not pass, with what that
/// source says; the sources behind it are not asked.
pub proof fn lemma_walk_decided(links: Seq<Link>, key: Seq<char>, outside: Outside, i: int)
    requires
        0 <= i < links.len(),
        found(links[i], key, outside) !is Pass,
        forall|j: int| 0 <= j < i ==> found(#[trigger] links[j], key, outside) is Pass,
    ensures
        walk(links, key, outside) == found(links[i], key, outside),
    decreases i,
{
    if i > 0 {
        let rest = links.drop_first();
        assert(found(links[0], key, outside) is Pass);
        assert(rest[i - 1] == links[i]);
        assert forall|j: int| 0 <= j < i - 1 implies found(
            #[trigger] rest[j],
            key,
            outside,
        ) is Pass by {
            assert(rest[j] == links[j + 1]);
        }
        lemma_walk_decided(rest, key, outside, i - 1);
    }
}

/// Where every source passes, the chain passes and the lookup returns nothing.
pub proof fn lemma_walk_exhausted(links: Seq<Link>, key: Seq<char>, outside: Outside)
    requires
        forall|j: int| 0 <= j < links.len() ==> found(#[trigger] links[j], key, outside) is Pass,
    ensures
        walk(links, key, outside) is Pass,
        resolve(links, key, outside) is None,
    decreases links.len(),
{
    if links.len() > 0 {
        let rest = links.drop_first();
        assert(found(links[0], key, outside) is Pass);
        assert forall|j: int| 0 <= j < rest.len() implies found(
            #[trigger] rest[j],
            key,
            outside,
        ) is Pass by {
            assert(rest[j] == links[j + 1]);
        }
        lemma_walk_exhausted(rest, key, outside);
    }
}

/// A chain made of two chains says what the first says, and where the first
/// passes, what the second says: a chain is itself a source.
pub proof fn lemma_walk_joined(a: Seq<Link>, b: Seq<Link>, key: Seq<char>, outside: Outside)
    ensures
        walk(a + b, key, outside) == match walk(a, key, outside) {
            Outcome::Pass => walk(b, key, outside),
            outcome => outcome,
        },
    decreases a.len(),
{
    if a.len() == 0 {
        assert(a + b =~= b);
    } else {
        assert((a + b).drop_first() =~= a.drop_first() + b);
        lemma_walk_joined(a.drop_first(), b, key, outside);
    }
}

/// A chain that ends in a terminal source never passes: a lookup along it
/// returns a value, unless a source on the way has read its document and does
/// not find the key in it.
pub proof fn lemma_terminal_chain_answers(links: Seq<Link>, key: Seq<char>, outside: Outside)
    requires
        links.len() > 0,
        links.last() is Terminal,
        walk(links, key, outside) !is Missing,
    ensures
        resolve(links, key, outside) is Some,
    decreases links.len(),
{
    if links.len() > 1 && found(links[0], key, outside) is Pass {
        lemma_terminal_chain_answers(links.drop_first(), key, outside);
    }
}

/// First match wins: where the head of a chain returns a value by itself, the
/// chain returns that value, whatever follows the head.
pub proof fn lemma_first_match_wins(
    head: Seq<Link>,
    rest: Seq<Link>,
    key: Seq<char>,
    outside: Outside,
)
    requires
        resolve(head, key, outside) is Some,
    ensures
        resolve(head + rest, key, outside) == resolve(head, key, outside),
{
    lemma_walk_joined(head, rest, key, outside);
}

/// Fall-through: where the head of a chain cannot answer, the chain returns
/// what the rest of it returns by itself.
pub proof fn lemma_fall_through(head: Seq<Link>, rest: Seq<Link>, key: Seq<char>, outside: Outside)
    requires
        walk(head, key, outside) is Pass,
    ensures
        resolve(head + rest, key, outside) == resolve(rest, key, outside),
{
    lemma_walk_joined(head, rest, key, outside);
}

/// A source that cannot answer is one whose variable is not set, whose file
/// cannot be read, whose file is not well-formed JSON, whose arguments hold no
/// value under the key, or that holds no document.
pub proof fn lemma_passes(link: Link, key: Seq<char>, outside: Outside)
    ensures
        found(link, key, outside) is Pass <==> match link {
            Link::Terminal(_) => false,
            Link::Arguments(values) => !values.contains_key(key),
            Link::Environment(prefix) => !outside.vars.contains_key(prefix + key),
            Link::RawFile(path) => !outside.files.contains_key(path),
            Link::JsonFile(path) => !outside.files.contains_key(path) || json_document(
                outside.files[path],
            ) is None,
            Link::Document(document) => document is None,
        },
{
}

/// A source alone, without a successor, returns nothing where it finds nothing.
pub proof fn lemma_lone_source(link: Link, key: Seq<char>, outside: Outside)
    requires
        found(link, key, outside) !is Found,
    ensures
        resolve(seq![link], key, outside) is None,
{
    assert(walk(seq![link].drop_first(), key, outside) is Pass);
}

/// An environment source reads the variable named by its prefix followed
/// directly by the key, and nothing else of the outside.
pub proof fn lemma_environment_reads_one_name(
    prefix: Seq<char>,
    key: Seq<char>,
    outside: Outside,
    other: Outside,
)
    requires
        outside.vars.get(prefix + key) == other.vars.get(prefix + key),
    ensures
        found(Link::Environment(prefix), key, outside) == found(
            Link::Environment(prefix),
            key,
            other,
        ),
        found(Link::Environment(prefix), key, outside) == match outside.vars.get(prefix + key) {
            Some(value) => Outcome::Found(value),
            None => Outcome::Pass,
        },
{
}

/// A raw-file source whose file can be read returns the whole text of the
/// file, whatever the key and whatever follows the source.
pub proof fn lemma_raw_file_ignores_key(
    path: Seq<char>,
    rest: Seq<Link>,
    key: Seq<char>,
    other_key: Seq<char>,
    outside: Outside,
)
    requires
        outside.files.contains_key(path),
    ensures
        resolve(seq![Link::RawFile(path)] + rest, key, outside) == Some(outside.files[path]),
        resolve(seq![Link::RawFile(path)] + rest, key, outside) == resolve(
            seq![Link::RawFile(path)] + rest,
            other_key,
            outside,
        ),
{
}

} // verus!
