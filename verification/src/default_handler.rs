use crate::chain::{reads, Link};
use crate::handler::Handler;
use crate::snapshot::{Need, Read, Snapshot};
use vstd::prelude::*;
use vstd::std_specs::convert::FromSpecImpl;

verus! {

/// The source that ends a chain: it answers every key with one fixed value.
pub struct DefaultHandler {
    value: String,
}

impl DefaultHandler {
    /// The value that the source answers with.
    pub closed spec fn value_text(&self) -> Seq<char> {
        self.value@
    }

    /// The chain of a terminal source is the source alone.
    pub proof fn lemma_chain(&self)
        ensures
            self.chain() == seq![Link::Terminal(self.value_text())],
    {
    }

    /// A source that answers every key with `value`.
    pub fn new(value: &str) -> (handler: DefaultHandler)
        ensures
            handler.chain() == seq![Link::Terminal(value@)],
    {
        DefaultHandler { value: value.to_owned() }
    }
}

impl Handler for DefaultHandler {
    closed spec fn chain(&self) -> Seq<Link> {
        seq![Link::Terminal(self.value@)]
    }

    /// Returns the value of the source, whatever the key and the outside are.
    fn handle_request(&self, key: &str, snapshot: &Snapshot) -> (value: Option<String>) {
        Some(self.value.clone())
    }

    /// Reads nothing.
    fn needs(&self, key: &str) -> (needs: Vec<Need>) {
        let needs: Vec<Need> = Vec::new();
        proof {
            reveal_with_fuel(reads, 2);
            assert(needs.deep_view() =~= Seq::<Read>::empty());
            assert(reads(self.chain(), key@) =~= Seq::<Read>::empty());
        }
        needs
    }
}

impl From<DefaultHandler> for Box<dyn Handler> {
    /// The source, boxed so that it can follow another source.
    fn from(handler: DefaultHandler) -> (boxed: Box<dyn Handler>) {
        Box::new(handler)
    }
}

impl FromSpecImpl<DefaultHandler> for Box<dyn Handler> {
    open spec fn obeys_from_spec() -> bool {
        true
    }

    open spec fn from_spec(handler: DefaultHandler) -> Box<dyn Handler> {
        Box::new(handler)
    }
}

} // verus!
