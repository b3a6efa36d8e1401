use crate::chain::{reads, Link};
use crate::handler::{delegate, later_needs, successors, Handler};
use crate::snapshot::{Need, Read, Snapshot};
use vstd::prelude::*;
use vstd::std_specs::convert::FromSpecImpl;
use vstd::string::StringExecFns;

verus! {

/// The source that reads environment variables: for a key it reads the
/// variable named by its prefix followed by the key.
pub struct EnvHandler {
    prefix: Option<String>,
    next: Option<Box<dyn Handler>>,
}

impl EnvHandler {
    /// The prefix that is put before each key; empty where none was given.
    pub closed spec fn prefix_text(&self) -> Seq<char> {
        match self.prefix {
            Some(prefix) => prefix@,
            None => Seq::empty(),
        }
    }

    /// The chain that follows this source.
    pub closed spec fn rest(&self) -> Seq<Link> {
        successors(self.next)
    }

    /// The chain of an environment source is the source with its prefix, then
    /// what follows it.
    pub proof fn lemma_chain(&self)
        ensures
            self.chain() == seq![Link::Environment(self.prefix_text())] + self.rest(),
    {
    }

    /// The name of the variable that is read for `key`: the prefix, then the
    /// key, with nothing between them.
    fn name(&self, key: &str) -> (name: String)
        ensures
            name@ == self.prefix_text() + key@,
    {
        match &self.prefix {
            Some(prefix) => prefix.clone().concat(key),
            None => {
                assert(Seq::<char>::empty() + key@ =~= key@);
                key.to_owned()
            },
        }
    }

    /// A source without a prefix and without a successor.
    pub fn new() -> (handler: EnvHandler)
        ensures
            handler.chain() == seq![Link::Environment(Seq::empty())],
    {
        EnvHandler { prefix: None, next: None }
    }

    /// The same source with `handler` as its successor, in place of any it had.
    pub fn next(self, handler: Box<dyn Handler>) -> (linked: EnvHandler)
        ensures
            linked.chain() == seq![self.chain()[0]] + handler.chain(),
    {
        let successor = Some(handler);
        let linked = EnvHandler { prefix: self.prefix, next: successor };
        assert(linked.chain() =~= seq![self.chain()[0]] + handler.chain());
        linked
    }

    /// The same source with `prefix` put before each key.
    pub fn prefix(self, prefix: &str) -> (prefixed: EnvHandler)
        ensures
            prefixed.chain() == seq![Link::Environment(prefix@)] + self.chain().drop_first(),
    {
        let prefixed = EnvHandler { prefix: Some(prefix.to_owned()), next: self.next };
        assert(prefixed.chain() =~= seq![Link::Environment(prefix@)] + self.chain().drop_first());
        prefixed
    }
}

impl Handler for EnvHandler {
    closed spec fn chain(&self) -> Seq<Link> {
        seq![Link::Environment(self.prefix_text())] + successors(self.next)
    }

    /// Returns the value of the variable named by the prefix followed by `key`;
    /// where that variable is not set, what the successor returns.
    fn handle_request(&self, key: &str, snapshot: &Snapshot) -> (value: Option<String>) {
        let name = self.name(key);
        proof {
            assert(self.chain().drop_first() =~= successors(self.next));
        }
        match snapshot.var(name.as_str()) {
            Some(value) => Some(value),
            None => delegate(&self.next, key, snapshot),
        }
    }

    /// Reads the variable named by the prefix followed by `key`.
    fn needs(&self, key: &str) -> (needs: Vec<Need>) {
        let mut needs = later_needs(&self.next, key);
        let ghost later = needs.deep_view();
        needs.insert(0, Need::Var(self.name(key)));
        proof {
            assert(self.chain().drop_first() =~= successors(self.next));
            assert(needs.deep_view() =~= seq![Read::Var(self.prefix_text() + key@)] + later);
        }
        needs
    }
}

impl From<EnvHandler> for Box<dyn Handler> {
    /// The source, boxed so that it can follow another source.
    fn from(handler: EnvHandler) -> (boxed: Box<dyn Handler>) {
        Box::new(handler)
    }
}

impl FromSpecImpl<EnvHandler> for Box<dyn Handler> {
    open spec fn obeys_from_spec() -> bool {
        true
    }

    open spec fn from_spec(handler: EnvHandler) -> Box<dyn Handler> {
        Box::new(handler)
    }
}

} // verus!
