use vstd::prelude::*;

verus! {

/// What lies outside the program at one moment: the environment variables that
/// are set and the files that can be read as text, each by its name.
pub struct Outside {
    pub vars: Map<Seq<char>, Seq<char>>,
    pub files: Map<Seq<char>, Seq<char>>,
}

/// One thing of the outside that a lookup reads: a variable by its name, or a
/// file by its path.
pub enum Read {
    Var(Seq<char>),
    File(Seq<char>),
}

/// Whether two outsides show the same under one read.
pub open spec fn same_at(read: Read, a: Outside, b: Outside) -> bool {
    match read {
        Read::Var(name) => a.vars.get(name) == b.vars.get(name),
        Read::File(path) => a.files.get(path) == b.files.get(path),
    }
}

/// One thing that has to be read from the outside before a lookup: the
/// variable of this name, or the file at this path.
#[derive(Debug, PartialEq, Eq)]
pub enum Need {
    Var(String),
    File(String),
}

impl View for Need {
    type V = Read;

    open spec fn view(&self) -> Read {
        match self {
            Need::Var(name) => Read::Var(name@),
            Need::File(path) => Read::File(path@),
        }
    }
}

impl DeepView for Need {
    type V = Read;

    open spec fn deep_view(&self) -> Read {
        self@
    }
}

/// The map that a list of pairs stands for: a later pair replaces an earlier
/// one of the same name.
pub open spec fn table(entries: Seq<(String, String)>) -> Map<Seq<char>, Seq<char>>
    decreases entries.len(),
{
    if entries.len() == 0 {
        Map::empty()
    } else {
        table(entries.drop_last()).insert(entries.last().0@, entries.last().1@)
    }
}

/// A name is bound to the value of the last pair that carries it.
pub proof fn lemma_table_bound(entries: Seq<(String, String)>, name: Seq<char>, i: int)
    requires
        0 <= i < entries.len(),
        entries[i].0@ == name,
        forall|j: int| i < j < entries.len() ==> entries[j].0@ != name,
    ensures
        table(entries).contains_key(name),
        table(entries)[name] == entries[i].1@,
    decreases entries.len(),
{
    if i < entries.len() - 1 {
        lemma_table_bound(entries.drop_last(), name, i);
    }
}

/// A name that no pair carries is not bound.
pub proof fn lemma_table_unbound(entries: Seq<(String, String)>, name: Seq<char>)
    requires
        forall|j: int| 0 <= j < entries.len() ==> entries[j].0@ != name,
    ensures
        !table(entries).contains_key(name),
    decreases entries.len(),
{
    if entries.len() > 0 {
        lemma_table_unbound(entries.drop_last(), name);
    }
}

fn lookup(entries: &Vec<(String, String)>, name: &str) -> (value: Option<String>)
    ensures
        value.deep_view() == table(entries@).get(name@),
{
    let wanted = name.to_owned();
    let mut i: usize = entries.len();
    while i > 0
        invariant
            i <= entries.len(),
            wanted@ == name@,
            forall|j: int| i <= j < entries.len() ==> entries@[j].0@ != name@,
        decreases i,
    {
        i -= 1;
        if entries[i].0 == wanted {
            proof {
                lemma_table_bound(entries@, name@, i as int);
            }
            return Some(entries[i].1.clone());
        }
    }
    proof {
        lemma_table_unbound(entries@, name@);
    }
    None
}

/// A record of the outside, taken before a lookup and handed to it.
pub struct Snapshot {
    vars: Vec<(String, String)>,
    files: Vec<(String, String)>,
}

impl View for Snapshot {
    type V = Outside;

    closed spec fn view(&self) -> Outside {
        Outside { vars: table(self.vars@), files: table(self.files@) }
    }
}

impl Snapshot {
    /// The record of an outside with no variable set and no file to read.
    pub fn new() -> (snapshot: Snapshot)
        ensures
            snapshot@.vars == Map::<Seq<char>, Seq<char>>::empty(),
            snapshot@.files == Map::<Seq<char>, Seq<char>>::empty(),
    {
        Snapshot { vars: Vec::new(), files: Vec::new() }
    }

    /// Records that the variable `name` is set to `value`.
    pub fn set_var(&mut self, name: &str, value: &str)
        ensures
            final(self)@.vars == old(self)@.vars.insert(name@, value@),
            final(self)@.files == old(self)@.files,
    {
        self.vars.push((name.to_owned(), value.to_owned()));
        assert(self.vars@.drop_last() =~= old(self).vars@);
    }

    /// Records that the file at `path` reads as `content`.
    pub fn set_file(&mut self, path: &str, content: &str)
        ensures
            final(self)@.files == old(self)@.files.insert(path@, content@),
            final(self)@.vars == old(self)@.vars,
    {
        self.files.push((path.to_owned(), content.to_owned()));
        assert(self.files@.drop_last() =~= old(self).files@);
    }

    /// The value of the variable `name`, if it is set.
    pub fn var(&self, name: &str) -> (value: Option<String>)
        ensures
            value.deep_view() == self@.vars.get(name@),
    {
        lookup(&self.vars, name)
    }

    /// The text of the file at `path`, if it can be read.
    pub fn file(&self, path: &str) -> (content: Option<String>)
        ensures
            content.deep_view() == self@.files.get(path@),
    {
        lookup(&self.files, path)
    }
}

} // verus!
