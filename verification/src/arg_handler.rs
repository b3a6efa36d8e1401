use crate::chain::{reads, Link};
use crate::handler::{delegate, later_needs, successors, Handler};
use crate::snapshot::{Need, Snapshot};
use vstd::prelude::*;
use vstd::std_specs::convert::FromSpecImpl;

verus! {

/// `clap::ArgMatches`, the arguments of a command line after parsing. Nothing
/// of its inside is known here but the values that `arg_values` names.
#[verifier::external_type_specification]
#[verifier::external_body]
pub struct ExArgMatches(clap::ArgMatches);

/// The text values that parsed arguments hold: for each argument that was
/// given a `String`, the first such value, by the name of the argument.
pub uninterp spec fn arg_values(args: clap::ArgMatches) -> Map<Seq<char>, Seq<char>>;

/// `clap::ArgMatches::try_get_one`, asked for a `String`: the first value of
/// the argument named `key`, or nothing where the arguments hold no value under
/// that name, where that value is no `String`, or where no argument of that
/// name was declared. The contract only gives the outcome its name,
/// `arg_values`.
#[verifier::external_body]
fn arg_value(args: &clap::ArgMatches, key: &str) -> (value: Option<String>)
    ensures
        value.deep_view() == arg_values(*args).get(key@),
{
    match args.try_get_one::<String>(key) {
        Ok(Some(value)) => Some(value.clone()),
        Ok(None) => None,
        Err(_) => None,
    }
}

/// The source that reads parsed command-line arguments: for a key it reads the
/// argument of that name.
pub struct ArgHandler<'a> {
    args: &'a clap::ArgMatches,
    next: Option<Box<dyn Handler>>,
}

impl<'a> ArgHandler<'a> {
    /// The text values that the arguments of this source hold.
    pub closed spec fn values(&self) -> Map<Seq<char>, Seq<char>> {
        arg_values(*self.args)
    }

    /// The chain that follows this source.
    pub closed spec fn rest(&self) -> Seq<Link> {
        successors(self.next)
    }

    /// The chain of an argument source is the source with its arguments, then
    /// what follows it.
    pub proof fn lemma_chain(&self)
        ensures
            self.chain() == seq![Link::Arguments(self.values())] + self.rest(),
    {
    }

    /// A source that reads `args`, without a successor.
    pub fn new(args: &'a clap::ArgMatches) -> (handler: ArgHandler<'a>)
        ensures
            handler.chain() == seq![Link::Arguments(arg_values(*args))],
    {
        let handler = ArgHandler { args, next: None };
        assert(handler.chain() =~= seq![Link::Arguments(arg_values(*args))]);
        handler
    }

    /// The same source with `handler` as its successor, in place of any it had.
    pub fn next(self, handler: Box<dyn Handler>) -> (linked: ArgHandler<'a>)
        ensures
            linked.chain() == seq![self.chain()[0]] + handler.chain(),
    {
        let successor = Some(handler);
        let linked = ArgHandler { args: self.args, next: successor };
        assert(linked.chain() =~= seq![self.chain()[0]] + handler.chain());
        linked
    }
}

impl<'a> Handler for ArgHandler<'a> {
    closed spec fn chain(&self) -> Seq<Link> {
        seq![Link::Arguments(arg_values(*self.args))] + successors(self.next)
    }

    /// Returns the value of the argument named `key`; where the arguments hold
    /// none, what the successor returns.
    fn handle_request(&self, key: &str, snapshot: &Snapshot) -> (value: Option<String>) {
        proof {
            assert(self.chain().drop_first() =~= successors(self.next));
        }
        match arg_value(self.args, key) {
            Some(value) => Some(value),
            None => delegate(&self.next, key, snapshot),
        }
    }

    /// Reads nothing itself.
    fn needs(&self, key: &str) -> (needs: Vec<Need>) {
        proof {
            assert(self.chain().drop_first() =~= successors(self.next));
            assert(reads(self.chain(), key@) =~= reads(successors(self.next), key@));
        }
        later_needs(&self.next, key)
    }
}

impl<'a> From<ArgHandler<'a>> for Box<dyn Handler + 'a> {
    /// The source, boxed so that it can follow another source.
    fn from(handler: ArgHandler<'a>) -> (boxed: Box<dyn Handler + 'a>) {
        Box::new(handler)
    }
}

impl<'a> FromSpecImpl<ArgHandler<'a>> for Box<dyn Handler + 'a> {
    open spec fn obeys_from_spec() -> bool {
        true
    }

    open spec fn from_spec(handler: ArgHandler<'a>) -> Box<dyn Handler + 'a> {
        Box::new(handler)
    }
}

} // verus!
