//! The error type of the engine.
use vstd::prelude::*;

verus! {

/// The unified error type of the engine; each variant carries a message.
#[derive(Debug, Clone, PartialEq)]
pub enum Error {
    Lexer(String),
    Parse(String),
    Semantic(String),
    Execution(String),
    Storage(String),
    Unimplemented(String),
}

/// The model of an [`Error`]: its kind and its message.
pub enum ErrorV {
    Lexer(Seq<char>),
    Parse(Seq<char>),
    Semantic(Seq<char>),
    Execution(Seq<char>),
    Storage(Seq<char>),
    Unimplemented(Seq<char>),
}

impl View for Error {
    type V = ErrorV;

    open spec fn view(&self) -> ErrorV {
        match self {
            Error::Lexer(m) => ErrorV::Lexer(m@),
            Error::Parse(m) => ErrorV::Parse(m@),
            Error::Semantic(m) => ErrorV::Semantic(m@),
            Error::Execution(m) => ErrorV::Execution(m@),
            Error::Storage(m) => ErrorV::Storage(m@),
            Error::Unimplemented(m) => ErrorV::Unimplemented(m@),
        }
    }
}

} // verus!
