//! Failures of a pipeline run. Parsing fails before any transformation
//! starts; a bad find/replace pattern fails at construction time, so a
//! misconfigured chain never starts a run. Transformers themselves never
//! fail on well-formed input.

use vstd::prelude::*;

verus! {

#[derive(Debug, Clone)]
pub enum Error {
    /// The input is not parseable markdown; carries the parser's diagnostic.
    Parse { message: String },
    /// A configured find/replace pattern is invalid; carries the compiler's
    /// diagnostic.
    PatternCompile { message: String },
}

impl Error {
    pub fn message(&self) -> (r: &str)
        ensures
            r@ == match self {
                Error::Parse { message } => message@,
                Error::PatternCompile { message } => message@,
            },
    {
        match self {
            Error::Parse { message } => message.as_str(),
            Error::PatternCompile { message } => message.as_str(),
        }
    }
}

} // verus!
