use crate::chain::{reads, resolve, Link};
use crate::snapshot::{Need, Read, Snapshot};
use vstd::prelude::*;

verus! {

/// A source of values that is looked up by key. A lookup has two steps: `needs`
/// says what of the outside has to be read for it, and `handle_request` gives
/// the answer from a snapshot that holds what was read.
pub trait Handler {
    /// The chain that starts at this source: the source itself, then those
    /// that follow it, in order.
    spec fn chain(&self) -> Seq<Link>;

    /// Looks `key` up along the chain, in the outside that `snapshot` records.
    fn handle_request(&self, key: &str, snapshot: &Snapshot) -> (value: Option<String>)
        ensures
            value.deep_view() == resolve(self.chain(), key@, snapshot@),
    ;

    /// What a lookup of `key` along the chain reads of the outside.
    fn needs(&self, key: &str) -> (needs: Vec<Need>)
        ensures
            needs.deep_view() == reads(self.chain(), key@),
    ;
}

/// The chain that follows a source.
pub open spec fn successors(next: Option<Box<dyn Handler>>) -> Seq<Link> {
    match next {
        Some(handler) => handler.chain(),
        None => Seq::empty(),
    }
}

/// Hands the lookup to the source that follows, if there is one.
pub fn delegate(next: &Option<Box<dyn Handler>>, key: &str, snapshot: &Snapshot) -> (value: Option<
    String,
>)
    ensures
        value.deep_view() == resolve(successors(*next), key@, snapshot@),
{
    match next {
        Some(handler) => handler.handle_request(key, snapshot),
        None => None,
    }
}

/// What the sources that follow read of the outside for `key`.
pub fn later_needs(next: &Option<Box<dyn Handler>>, key: &str) -> (needs: Vec<Need>)
    ensures
        needs.deep_view() == reads(successors(*next), key@),
{
    match next {
        Some(handler) => handler.needs(key),
        None => {
            let needs: Vec<Need> = Vec::new();
            assert(needs.deep_view() =~= Seq::<Read>::empty());
            needs
        },
    }
}

} // verus!
