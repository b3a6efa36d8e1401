use crate::chain::Link;
use crate::file_handler::FileHandler;
use crate::handler::Handler;
use crate::json::parse_json;
use crate::snapshot::{Need, Snapshot};
use crate::tree::{find_key_recursive, search, Node};
use vstd::prelude::*;
use vstd::std_specs::convert::FromSpecImpl;

verus! {

/// The source that reads one file as a JSON document and searches it for the
/// key. It reads the file, and passes the lookup on, through the file source
/// that it wraps.
pub struct JSONFileHandler {
    file_handler: FileHandler,
}

impl JSONFileHandler {
    /// The path of the file.
    pub closed spec fn path(&self) -> Seq<char> {
        self.file_handler.path()
    }

    /// The chain that follows this source.
    pub closed spec fn rest(&self) -> Seq<Link> {
        self.file_handler.rest()
    }

    /// The chain of a JSON file source is the file, then what follows the
    /// source.
    pub proof fn lemma_chain(&self)
        ensures
            self.chain() == seq![Link::JsonFile(self.path())] + self.rest(),
    {
    }

    /// A source that reads the JSON file at `file_path`, without a successor.
    pub fn new(file_path: &str) -> (handler: JSONFileHandler)
        ensures
            handler.chain() == seq![Link::JsonFile(file_path@)],
    {
        let handler = JSONFileHandler { file_handler: FileHandler::new(file_path) };
        assert(handler.chain() =~= seq![Link::JsonFile(file_path@)]);
        handler
    }

    /// The same source with `handler` as its successor, in place of any it had.
    pub fn next(self, handler: Box<dyn Handler>) -> (linked: JSONFileHandler)
        ensures
            linked.chain() == seq![self.chain()[0]] + handler.chain(),
    {
        let successor = Some(handler);
        let linked = JSONFileHandler { file_handler: self.file_handler.relinked(successor) };
        assert(linked.chain() =~= seq![self.chain()[0]] + handler.chain());
        linked
    }

    /// Searches a document for `key`.
    pub fn find_key_recursive(json_value: &Node, key: &str) -> (found: Option<String>)
        ensures
            found.deep_view() == search(json_value@, key@),
    {
        find_key_recursive(json_value, key)
    }
}

impl Handler for JSONFileHandler {
    closed spec fn chain(&self) -> Seq<Link> {
        seq![Link::JsonFile(self.file_handler.path())] + self.file_handler.rest()
    }

    /// Returns what the search of the document finds, and nothing where the
    /// document does not hold the key; where the file cannot be read or is not
    /// well-formed JSON, what the successor returns.
    fn handle_request(&self, key: &str, snapshot: &Snapshot) -> (value: Option<String>) {
        proof {
            assert(self.chain().drop_first() =~= self.file_handler.rest());
        }
        match self.file_handler.content(snapshot) {
            Some(text) => match parse_json(text.as_str()) {
                Some(document) => Self::find_key_recursive(&document, key),
                None => self.file_handler.pass_on(key, snapshot),
            },
            None => self.file_handler.pass_on(key, snapshot),
        }
    }

    /// Reads the file.
    fn needs(&self, key: &str) -> (needs: Vec<Need>) {
        proof {
            assert(self.chain().drop_first() =~= self.file_handler.rest());
        }
        self.file_handler.reads_for(key)
    }
}

impl From<JSONFileHandler> for Box<dyn Handler> {
    /// The source, boxed so that it can follow another source.
    fn from(handler: JSONFileHandler) -> (boxed: Box<dyn Handler>) {
        Box::new(handler)
    }
}

impl FromSpecImpl<JSONFileHandler> for Box<dyn Handler> {
    open spec fn obeys_from_spec() -> bool {
        true
    }

    open spec fn from_spec(handler: JSONFileHandler) -> Box<dyn Handler> {
        Box::new(handler)
    }
}

} // verus!
