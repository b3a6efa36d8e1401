use crate::chain::{reads, Link};
use crate::handler::{delegate, later_needs, successors, Handler};
use crate::snapshot::{Need, Snapshot};
use crate::tree::{find_key_recursive, layout, search, Node, Step, Tree};
use config::ValueKind;
use vstd::prelude::*;
use vstd::std_specs::convert::FromSpecImpl;

verus! {

/// `config::Config`, a configuration that was built from its sources.
#[verifier::external_type_specification]
#[verifier::external_body]
pub struct ExConfig(config::Config);

/// `config::Value`, one value of a configuration with what lies below it.
#[verifier::external_type_specification]
#[verifier::external_body]
pub struct ExConfigValue(config::Value);

/// `config::ConfigError`, the reason why a configuration could not be built.
#[verifier::external_type_specification]
#[verifier::external_body]
pub struct ExConfigError(config::ConfigError);

/// How a configuration is laid out, whatever the order of its tables: every
/// path that leads from its root to a value, by the names of the entries and
/// the places of the items on the way, with the text of that value where it is
/// a scalar; nothing where the configuration cannot be read.
pub uninterp spec fn config_layout(config: config::Config) -> Option<
    Set<(Seq<Step>, Option<Seq<char>>)>,
>;

/// How a value of a configuration is laid out, whatever the order of its
/// tables: every path that leads from it to a value at or below it, with the
/// text of that value where it is a scalar.
pub uninterp spec fn value_layout(value: config::Value) -> Set<(Seq<Step>, Option<Seq<char>>)>;

/// `config::Config::try_deserialize`, asked for a `config::Value`: the root of
/// what the configuration holds, or nothing where it cannot be read. The crate
/// builds the tables of that value anew on each call and walks them in an order
/// of its own, so the contract names only what does not depend on that order:
/// whether there is a value, and by which paths it holds which values.
#[verifier::external_body]
fn config_value(config: &config::Config) -> (value: Option<config::Value>)
    ensures
        match value {
            Some(root) => config_layout(*config) == Some(value_layout(root)),
            None => config_layout(*config) is None,
        },
{
    match config.clone().try_deserialize::<config::Value>() {
        Ok(value) => Some(value),
        Err(_) => None,
    }
}

/// Copies a `config::Value` into a `Node`, kind by kind, the entries of a table
/// in the order in which the crate walks them. The text of a value that is not
/// a string is what the crate writes for it (`to_string`). The contract names
/// the paths of the copy and the scalars at their ends; it says nothing of the
/// order of a table's entries, nor of the text of a table or a sequence.
#[verifier::external_body]
fn config_node(value: &config::Value) -> (node: Node)
    ensures
        layout(node@) == value_layout(*value),
{
    let text = value.to_string();
    match &value.kind {
        ValueKind::String(inner) => Node::Text(inner.clone()),
        ValueKind::Table(entries) => {
            let copy = |(name, child): (&String, &config::Value)| (name.clone(), config_node(child));
            Node::Table(text, entries.iter().map(copy).collect())
        },
        ValueKind::Array(items) => Node::Sequence(text, items.iter().map(config_node).collect()),
        ValueKind::Nil | ValueKind::Boolean(_) | ValueKind::Float(_) => Node::Scalar(text),
        ValueKind::I64(_) | ValueKind::I128(_) => Node::Scalar(text),
        ValueKind::U64(_) | ValueKind::U128(_) => Node::Scalar(text),
    }
}

/// The source that searches a configuration for the key.
pub struct ConfigHandler {
    document: Option<Node>,
    next: Option<Box<dyn Handler>>,
}

impl ConfigHandler {
    /// The document that the source holds, if the configuration could be read.
    pub closed spec fn document(&self) -> Option<Tree> {
        match self.document {
            Some(node) => Some(node@),
            None => None,
        }
    }

    /// The chain that follows this source.
    pub closed spec fn rest(&self) -> Seq<Link> {
        successors(self.next)
    }

    /// The chain of a configuration source is the source with its document,
    /// then what follows it.
    pub proof fn lemma_chain(&self)
        ensures
            self.chain() == seq![Link::Document(self.document())] + self.rest(),
    {
    }

    /// A source that searches `document`, and passes where there is none;
    /// without a successor.
    pub fn with_document(document: Option<Node>) -> (handler: ConfigHandler)
        ensures
            handler.chain() == seq![Link::Document(handler.document())],
            handler.document() == match document {
                Some(node) => Some(node@),
                None => None,
            },
    {
        let handler = ConfigHandler { document, next: None };
        assert(handler.chain() =~= seq![Link::Document(handler.document())]);
        handler
    }

    /// A source that searches what `config` holds, without a successor. Its
    /// document is laid out as the configuration is: the same paths lead to the
    /// same values. In which order the entries of a table stand is not fixed.
    pub fn new(config: Box<config::Config>) -> (handler: ConfigHandler)
        ensures
            handler.chain() == seq![Link::Document(handler.document())],
            match handler.document() {
                Some(document) => config_layout(*config) == Some(layout(document)),
                None => config_layout(*config) is None,
            },
    {
        let document = match config_value(&*config) {
            Some(value) => Some(config_node(&value)),
            None => None,
        };
        Self::with_document(document)
    }

    /// A source that searches the configuration that was built.
    pub fn from_result(value: Result<config::Config, config::ConfigError>) -> (handler:
        ConfigHandler)
        requires
            value is Ok,
        ensures
            handler.chain() == seq![Link::Document(handler.document())],
            match handler.document() {
                Some(document) => config_layout(value->Ok_0) == Some(layout(document)),
                None => config_layout(value->Ok_0) is None,
            },
    {
        match value {
            Ok(config) => Self::new(Box::new(config)),
            Err(_) => unreached(),
        }
    }

    /// The same source with `handler` as its successor, in place of any it had.
    pub fn next(self, handler: Box<dyn Handler>) -> (linked: ConfigHandler)
        ensures
            linked.chain() == seq![self.chain()[0]] + handler.chain(),
            linked.document() == self.document(),
    {
        let successor = Some(handler);
        let linked = ConfigHandler { document: self.document, next: successor };
        assert(linked.chain() =~= seq![self.chain()[0]] + handler.chain());
        linked
    }

    /// Searches a document for `key`.
    pub fn find_key_recursive(config_value: &Node, key: &str) -> (found: Option<String>)
        ensures
            found.deep_view() == search(config_value@, key@),
    {
        find_key_recursive(config_value, key)
    }
}

impl Handler for ConfigHandler {
    closed spec fn chain(&self) -> Seq<Link> {
        seq![Link::Document(self.document())] + successors(self.next)
    }

    /// Returns what the search of the document finds, and nothing where the
    /// document does not hold the key; where the source holds no document, what
    /// the successor returns.
    fn handle_request(&self, key: &str, snapshot: &Snapshot) -> (value: Option<String>) {
        proof {
            assert(self.chain().drop_first() =~= successors(self.next));
        }
        match &self.document {
            Some(document) => Self::find_key_recursive(document, key),
            None => delegate(&self.next, key, snapshot),
        }
    }

    /// Reads nothing itself.
    fn needs(&self, key: &str) -> (needs: Vec<Need>) {
        proof {
            assert(self.chain().drop_first() =~= successors(self.next));
            assert(reads(self.chain(), key@) =~= reads(successors(self.next), key@));
        }
        later_needs(&self.next, key)
    }
}

impl From<config::Config> for ConfigHandler {
    /// A source that searches what `value` holds, without a successor; the
    /// same source that `ConfigHandler::new` makes of it.
    fn from(value: config::Config) -> (handler: ConfigHandler)
        ensures
            handler.chain() == seq![Link::Document(handler.document())],
            match handler.document() {
                Some(document) => config_layout(value) == Some(layout(document)),
                None => config_layout(value) is None,
            },
    {
        ConfigHandler::new(Box::new(value))
    }
}

impl FromSpecImpl<config::Config> for ConfigHandler {
    /// In which order the tables of the document stand is not fixed, so the
    /// conversion follows no function; what it gives is stated on `from`.
    open spec fn obeys_from_spec() -> bool {
        false
    }

    open spec fn from_spec(value: config::Config) -> ConfigHandler {
        arbitrary()
    }
}

impl From<ConfigHandler> for Box<dyn Handler> {
    /// The source, boxed so that it can follow another source.
    fn from(handler: ConfigHandler) -> (boxed: Box<dyn Handler>) {
        Box::new(handler)
    }
}

impl FromSpecImpl<ConfigHandler> for Box<dyn Handler> {
    open spec fn obeys_from_spec() -> bool {
        true
    }

    open spec fn from_spec(handler: ConfigHandler) -> Box<dyn Handler> {
        Box::new(handler)
    }
}

} // verus!
