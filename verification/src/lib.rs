//! Shell completion candidates for hierarchical command-line tools.
//!
//! Given a static description of a command tree (commands, flags,
//! positional arguments) and a partially typed command line, the library
//! walks the tree while consuming tokens and returns the sensible
//! continuations for the final token, together with a structured trace
//! (the history) of everything recognized before it.
//!
//! The engine's behaviour is specified by the model in `model`: the
//! walker's contracts say that the history and the outcome are exactly
//! what the model's walk computes, and the laws in `laws` hold of every
//! run.

pub mod arg_context;
pub mod command;
pub mod completion;
pub mod error;
pub mod history;
pub mod id;
pub mod laws;
pub mod model;
pub mod parsed_flag;
pub mod strutil;
pub mod walker;

pub use command::Arg;
pub use command::Command;
pub use command::CommandInfo;
pub use command::Flag;
pub use command::FlagInfo;
pub use command::ValueCompleter;
pub use completion::Completion;
pub use completion::CompletionGroup;
pub use completion::Shell;
pub use history::History;
