use crate::chain::{reads, resolve, Link};
use crate::handler::{delegate, later_needs, successors, Handler};
use crate::snapshot::{Need, Read, Snapshot};
use vstd::prelude::*;
use vstd::std_specs::convert::FromSpecImpl;

verus! {

/// The source that answers every key with the whole text of one file.
pub struct FileHandler {
    file_path: String,
    next: Option<Box<dyn Handler>>,
}

impl FileHandler {
    /// The path of the file.
    pub closed spec fn path(&self) -> Seq<char> {
        self.file_path@
    }

    /// The chain that follows this source.
    pub closed spec fn rest(&self) -> Seq<Link> {
        successors(self.next)
    }

    /// A source that reads the file at `file_path`, without a successor.
    pub fn new(file_path: &str) -> (handler: FileHandler)
        ensures
            handler.chain() == seq![Link::RawFile(file_path@)],
            handler.path() == file_path@,
            handler.rest() == Seq::<Link>::empty(),
    {
        let handler = FileHandler { file_path: file_path.to_owned(), next: None };
        assert(handler.chain() =~= seq![Link::RawFile(file_path@)]);
        handler
    }

    /// The same source with `handler` as its successor, in place of any it had.
    pub fn next(self, handler: Box<dyn Handler>) -> (linked: FileHandler)
        ensures
            linked.chain() == seq![self.chain()[0]] + handler.chain(),
            linked.path() == self.path(),
            linked.rest() == handler.chain(),
    {
        let successor = Some(handler);
        let linked = FileHandler { file_path: self.file_path, next: successor };
        assert(linked.chain() =~= seq![self.chain()[0]] + handler.chain());
        linked
    }

    /// The same source with `successor` in the place of its successor.
    pub(crate) fn relinked(self, successor: Option<Box<dyn Handler>>) -> (linked: FileHandler)
        ensures
            linked.path() == self.path(),
            linked.rest() == successors(successor),
    {
        FileHandler { file_path: self.file_path, next: successor }
    }

    /// The text of the file, if it can be read.
    pub(crate) fn content(&self, snapshot: &Snapshot) -> (content: Option<String>)
        ensures
            content.deep_view() == snapshot@.files.get(self.path()),
    {
        snapshot.file(self.file_path.as_str())
    }

    /// What the chain that follows this source returns for `key`.
    pub(crate) fn pass_on(&self, key: &str, snapshot: &Snapshot) -> (value: Option<String>)
        ensures
            value.deep_view() == resolve(self.rest(), key@, snapshot@),
    {
        delegate(&self.next, key, snapshot)
    }

    /// What a lookup of `key` reads: the file, then what the sources that
    /// follow read.
    pub(crate) fn reads_for(&self, key: &str) -> (needs: Vec<Need>)
        ensures
            needs.deep_view() == seq![Read::File(self.path())] + reads(self.rest(), key@),
    {
        let mut needs = later_needs(&self.next, key);
        let ghost later = needs.deep_view();
        needs.insert(0, Need::File(self.file_path.clone()));
        assert(needs.deep_view() =~= seq![Read::File(self.path())] + later);
        needs
    }

    /// The chain of a file source is the file, then what follows the source.
    pub proof fn lemma_chain(&self)
        ensures
            self.chain() == seq![Link::RawFile(self.path())] + self.rest(),
    {
    }
}

impl Handler for FileHandler {
    closed spec fn chain(&self) -> Seq<Link> {
        seq![Link::RawFile(self.file_path@)] + successors(self.next)
    }

    /// Returns the text of the file whatever the key is; where the file cannot
    /// be read, what the successor returns.
    fn handle_request(&self, key: &str, snapshot: &Snapshot) -> (value: Option<String>) {
        proof {
            assert(self.chain().drop_first() =~= self.rest());
        }
        match self.content(snapshot) {
            Some(content) => Some(content),
            None => self.pass_on(key, snapshot),
        }
    }

    /// Reads the file.
    fn needs(&self, key: &str) -> (needs: Vec<Need>) {
        proof {
            assert(self.chain().drop_first() =~= self.rest());
        }
        self.reads_for(key)
    }
}

impl From<FileHandler> for Box<dyn Handler> {
    /// The source, boxed so that it can follow another source.
    fn from(handler: FileHandler) -> (boxed: Box<dyn Handler>) {
        Box::new(handler)
    }
}

impl FromSpecImpl<FileHandler> for Box<dyn Handler> {
    open spec fn obeys_from_spec() -> bool {
        true
    }

    open spec fn from_spec(handler: FileHandler) -> Box<dyn Handler> {
        Box::new(handler)
    }
}

} // verus!
