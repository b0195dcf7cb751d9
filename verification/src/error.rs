//! Errors used across the engine.
//!
//! Every fallible operation returns one of these; the engine never
//! aborts. Each variant carries a descriptive message for a
//! user-facing diagnostic.

use vstd::prelude::*;

verus! {

/// Error taxonomy of the engine: malformed tag source lines or
/// write-time tag arguments, malformed or invalid or duplicate rules,
/// and file-level failures reported by the I/O layer.
#[derive(Debug)]
pub enum RulesError {
    /// A malformed tag source line, or a bad write-time tag argument.
    TagParseError(String),
    /// Malformed rule syntax, a failed vocabulary check, or a
    /// duplicate rule on write.
    RuleParseError(String),
    /// An I/O failure reported by the caller's file layer.
    FileError(String),
}

impl RulesError {
    /// The human-readable description carried by the error.
    pub fn message(&self) -> (m: &String)
        ensures
            m@ == self.message_spec(),
    {
        match self {
            RulesError::TagParseError(m) => m,
            RulesError::RuleParseError(m) => m,
            RulesError::FileError(m) => m,
        }
    }

    /// Spec view of the carried message.
    pub open spec fn message_spec(&self) -> Seq<char> {
        match self {
            RulesError::TagParseError(m) => m@,
            RulesError::RuleParseError(m) => m@,
            RulesError::FileError(m) => m@,
        }
    }
}

/// Legacy error of the command-line front end.
#[derive(Debug)]
pub enum RuleEngineError {
    /// A requested file was not found.
    FileNotFound(String),
}

} // verus!
