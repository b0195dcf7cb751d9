//! A declarative tag-matching rule engine.
//!
//! Operators define a controlled vocabulary of named tags with allowed
//! values, then author boolean rules over `tag = value` comparisons.
//! Rules are parsed into an abstract syntax tree, validated against the
//! vocabulary, normalized into disjunctive normal form, and evaluated
//! against objects (attribute maps) with a single counter-based pass.
//!
//! Matching is case-insensitive with ASCII case folding: a non-ASCII
//! capital is not folded. Tag names and values are plain ASCII
//! identifiers by design.

pub mod dnf;
pub mod entry;
pub mod error;
pub mod eval;
pub mod object_write;
pub mod orchestrator;
pub mod parser;
pub mod rule_write;
pub mod rules;
pub mod sem;
pub mod strutil;
pub mod tag_write;
pub mod tags;
pub mod token;
pub mod types;
pub mod validate;
pub mod vocab;

pub use entry::evaluate;
pub use error::RuleEngineError;
pub use error::RulesError;
pub use rules::Rules;
pub use strutil::StringIndexing;
pub use tag_write::write as write_tag;
pub use rule_write::write as write_rule;
pub use object_write::write as write_object;
