//! Typed errors returned by the walker and the candidate synthesizer.
//!
//! Errors fail fast: the caller receives the error together with the
//! history built so far.

use vstd::prelude::*;

use crate::parsed_flag;

verus! {

/// Mathematical content of an error.
pub enum ErrorView {
    ParsedFlag(parsed_flag::Error),
    BoolFlagEqualsValue(Seq<char>),
    FlagNoValue(Seq<char>),
    FlagNotFound(Seq<char>),
    NoPossibleCompletion,
    UnexpectedArg(Seq<char>),
    ArgsTooShort,
}

/// Everything that can go wrong while walking the tokens.
#[derive(Debug)]
pub enum Error {
    /// The token is malformed.
    ParsedFlag(parsed_flag::Error),
    /// `=value` was supplied to a flag that does not take a value.
    BoolFlagEqualsValue(String),
    /// A value-taking flag was followed by a token that is itself a flag.
    FlagNoValue(String),
    /// No matching flag definition.
    FlagNotFound(String),
    /// The synthesizer has nothing to offer where something was expected.
    NoPossibleCompletion,
    /// A positional value arrived with no positional slot remaining.
    UnexpectedArg(String),
    /// The token list was empty.
    ArgsTooShort,
}

impl View for Error {
    type V = ErrorView;

    open spec fn view(&self) -> ErrorView {
        match self {
            Error::ParsedFlag(e) => ErrorView::ParsedFlag(*e),
            Error::BoolFlagEqualsValue(s) => ErrorView::BoolFlagEqualsValue(s@),
            Error::FlagNoValue(s) => ErrorView::FlagNoValue(s@),
            Error::FlagNotFound(s) => ErrorView::FlagNotFound(s@),
            Error::NoPossibleCompletion => ErrorView::NoPossibleCompletion,
            Error::UnexpectedArg(s) => ErrorView::UnexpectedArg(s@),
            Error::ArgsTooShort => ErrorView::ArgsTooShort,
        }
    }
}

impl PartialEq for Error {
    fn eq(&self, other: &Self) -> bool {
        match (self, other) {
            (Error::ParsedFlag(a), Error::ParsedFlag(b)) => *a == *b,
            (Error::BoolFlagEqualsValue(a), Error::BoolFlagEqualsValue(b)) => *a == *b,
            (Error::FlagNoValue(a), Error::FlagNoValue(b)) => *a == *b,
            (Error::FlagNotFound(a), Error::FlagNotFound(b)) => *a == *b,
            (Error::NoPossibleCompletion, Error::NoPossibleCompletion) => true,
            (Error::UnexpectedArg(a), Error::UnexpectedArg(b)) => *a == *b,
            (Error::ArgsTooShort, Error::ArgsTooShort) => true,
            _ => false,
        }
    }
}

impl vstd::std_specs::cmp::PartialEqSpecImpl for Error {
    open spec fn obeys_eq_spec() -> bool {
        true
    }

    open spec fn eq_spec(&self, other: &Self) -> bool {
        self@ == other@
    }
}

impl From<parsed_flag::Error> for Error {
    fn from(value: parsed_flag::Error) -> (r: Self) {
        Error::ParsedFlag(value)
    }
}

impl vstd::std_specs::convert::FromSpecImpl<parsed_flag::Error> for Error {
    open spec fn obeys_from_spec() -> bool {
        true
    }

    open spec fn from_spec(t: parsed_flag::Error) -> Self {
        Error::ParsedFlag(t)
    }
}

} // verus!
