//! The static declaration of a command tree.
//!
//! A command owns its flags, its positional slots and its subcommands.
//! Flags inherited from ancestors are expected to be merged into
//! `all_flags` when the declaration is built.  Value completers are
//! user-supplied callbacks; the library never promises anything about
//! what they return.

use vstd::prelude::*;

use crate::completion::Completion;
use crate::history::History;
use crate::id;
use crate::id::ArgIdView;
use crate::id::FlagIdView;
use crate::id::IdView;

verus! {

broadcast use vstd::std_specs::vec::axiom_vec_index_decreases;

/// A user-supplied value completer.
///
/// It receives a read-only view of the history and the partially typed
/// value, and returns the candidates for that value.
pub trait ValueCompleter {
    /// Produce candidates for a partially typed value.
    fn complete(&self, history: &History, arg: &str) -> Vec<Completion>;
}

/// Names and description of a flag.
#[derive(Debug)]
pub struct FlagInfo {
    /// Single-character aliases, each introduced by `-`.
    pub short: Vec<char>,
    /// Long aliases, each introduced by `--`.
    pub long: Vec<String>,
    pub description: String,
}

/// Name and description of a command.
#[derive(Debug)]
pub struct CommandInfo {
    pub name: String,
    pub description: String,
}

/// A declared flag.  A missing completer means a boolean flag.
#[verifier::reject_recursive_types(C)]
pub struct Flag<C> {
    pub id: id::Flag,
    pub info: FlagInfo,
    pub comp_options: Option<C>,
    /// When set, the flag is dropped from the effective flag list once
    /// its identity appears in history.
    pub once: bool,
}

/// A declared positional slot.
#[verifier::reject_recursive_types(C)]
pub struct Arg<C> {
    pub id: id::Arg,
    pub comp_options: C,
    /// How many values this slot absorbs before the cursor moves on.
    pub max_values: usize,
}

/// A command: its identity, flags, positional slots and subcommands.
#[verifier::reject_recursive_types(C)]
pub struct Command<C> {
    pub id: id::NoVal,
    pub info: CommandInfo,
    /// The effective flags, inherited globals already merged in.
    pub all_flags: Vec<Flag<C>>,
    pub args: Vec<Arg<C>>,
    pub commands: Vec<Command<C>>,
}

/// Mathematical content of a flag declaration.
pub struct FlagView {
    pub id: FlagIdView,
    pub short: Seq<char>,
    pub long: Seq<Seq<char>>,
    pub description: Seq<char>,
    /// Whether the flag takes a value, that is, has a completer.
    pub takes_value: bool,
    pub once: bool,
}

/// Mathematical content of a positional slot.
pub struct ArgView {
    pub id: ArgIdView,
    pub max_values: int,
}

/// Mathematical content of a command declaration.
pub struct CommandView {
    pub id: IdView,
    pub name: Seq<char>,
    pub description: Seq<char>,
    pub flags: Seq<FlagView>,
    pub args: Seq<ArgView>,
    pub commands: Seq<CommandView>,
}

impl<C> View for Flag<C> {
    type V = FlagView;

    open spec fn view(&self) -> FlagView {
        FlagView {
            id: self.id@,
            short: self.info.short@,
            long: self.info.long@.map_values(|s: String| s@),
            description: self.info.description@,
            takes_value: self.comp_options is Some,
            once: self.once,
        }
    }
}

impl<C> View for Arg<C> {
    type V = ArgView;

    open spec fn view(&self) -> ArgView {
        ArgView { id: self.id@, max_values: self.max_values as int }
    }
}

/// The view of a whole declaration tree.  The guard in the closure
/// only keeps the recursion well founded; `Seq::new` never reads an
/// index out of range.
pub open spec fn command_view<C>(c: Command<C>) -> CommandView
    decreases c,
{
    CommandView {
        id: c.id@,
        name: c.info.name@,
        description: c.info.description@,
        flags: c.all_flags@.map_values(|f: Flag<C>| f@),
        args: c.args@.map_values(|a: Arg<C>| a@),
        commands: Seq::new(
            c.commands@.len(),
            |i: int|
                if 0 <= i < c.commands@.len() {
                    command_view(c.commands[i])
                } else {
                    placeholder_command_view()
                },
        ),
    }
}

impl<C> View for Command<C> {
    type V = CommandView;

    open spec fn view(&self) -> CommandView {
        command_view(*self)
    }
}

/// The value a tree view's closure yields out of range; never read.
pub open spec fn placeholder_command_view() -> CommandView {
    CommandView {
        id: IdView { num: 0, name: Seq::empty() },
        name: Seq::empty(),
        description: Seq::empty(),
        flags: Seq::empty(),
        args: Seq::empty(),
        commands: Seq::empty(),
    }
}

/// What a command's view holds, field by field: the flags, slots and
/// subcommands are the views of the declaration's own vectors.
pub proof fn lemma_command_view<C>(c: &Command<C>)
    ensures
        c@.id == c.id@,
        c@.name == c.info.name@,
        c@.description == c.info.description@,
        c@.flags == c.all_flags@.map_values(|f: Flag<C>| f@),
        c@.args == c.args@.map_values(|a: Arg<C>| a@),
        c@.commands.len() == c.commands@.len(),
        forall|i: int|
            0 <= i < c.commands@.len() ==> c@.commands[i] == (#[trigger] c.commands@[i])@,
        c@.commands == c.commands@.map_values(|x: Command<C>| x@),
{
    assert(c@.id == c.id@);
    assert(c@.commands.len() == c.commands@.len());
    assert(c@.commands =~= c.commands@.map_values(|x: Command<C>| x@));
}

/// A flag declaration is well formed when its identity shape agrees
/// with whether it takes a value: a boolean flag has a no-value
/// identity, a value-taking flag a single- or multi-value identity.
pub open spec fn flag_wf(f: FlagView) -> bool {
    f.takes_value <==> !(f.id is No)
}

/// A positional slot is well formed when it absorbs at least one value.
pub open spec fn arg_wf(a: ArgView) -> bool {
    a.max_values >= 1
}

/// A command tree is well formed when every flag and slot in it is,
/// recursively through the subcommands.
pub open spec fn command_wf(c: CommandView) -> bool
    decreases c,
{
    &&& forall|i: int| 0 <= i < c.flags.len() ==> flag_wf(#[trigger] c.flags[i])
    &&& forall|i: int| 0 <= i < c.args.len() ==> arg_wf(#[trigger] c.args[i])
    &&& forall|i: int| 0 <= i < c.commands.len() ==> command_wf(#[trigger] c.commands[i])
}

} // verus!
