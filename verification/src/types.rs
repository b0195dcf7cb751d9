//! Core data types of the rule engine.

use vstd::prelude::*;
use crate::strutil::is_space;

verus! {

/// A tag name, e.g. `colour`.
pub type TagName = String;

/// A tag's allowed values, e.g. `red, green`.
pub type TagValues = Vec<String>;

/// An object under evaluation: attribute names, each with one or more
/// values. The list encodes a mapping; lookups union all entries whose
/// names agree case-insensitively.
pub type Object = Vec<(String, Vec<String>)>;

/// A named tag with its set of allowed values.
pub struct Tag {
    pub name: TagName,
    pub values: TagValues,
}

/// A token is a word when it is non-empty and free of whitespace.
pub open spec fn wf_word(s: Seq<char>) -> bool {
    s.len() > 0 && forall|k: int| 0 <= k < s.len() ==> !is_space(s[k])
}

/// The comparison operators of the rule grammar: `=` and `!`.
#[derive(Clone, Copy, PartialEq, Eq, Structural, Debug)]
pub enum ComparisonOp {
    ISEQ,
    NOEQ,
}

/// The connectives of the rule grammar: `&` and `|`.
#[derive(Clone, Copy, PartialEq, Eq, Structural, Debug)]
pub enum LogicalOp {
    AND,
    OR,
}

/// An atomic predicate: tag name, operator, and the comma-expanded
/// value list it is compared against. A comparison holds when the
/// object has the tag and the operator's test passes for some value
/// of the list (`=`), or for the single listed value (`!`): the list
/// is OR-combined.
pub struct Comparison {
    pub tag: String,
    pub op: ComparisonOp,
    pub values: Vec<String>,
}

/// A rule's abstract syntax tree.
pub enum Ast {
    /// A leaf `tag op value-list` comparison.
    Comparison(Comparison),
    /// Conjunction of the two children.
    And(Box<Ast>, Box<Ast>),
    /// Disjunction of the two children.
    Or(Box<Ast>, Box<Ast>),
    /// An explicitly parenthesized sub-expression.
    Group(Box<Ast>),
    /// A `-( ... )` negated group.
    Negate(Box<Ast>),
}

/// One conjunctive clause of a rule in disjunctive normal form, with
/// the counter pair used by the single-pass evaluator. The clause is
/// satisfied when every comparison in it matches, i.e. when
/// `actual_count` reaches `expected_count`.
pub struct SubRule {
    /// Number of comparisons that must match: the size of the clause.
    pub expected_count: usize,
    /// Number of comparisons matched so far in the current pass.
    pub actual_count: usize,
    /// The comparisons of the clause; each carries a single value here.
    pub comparisons: Vec<Comparison>,
}

impl Default for SubRule {
    /// The empty clause: nothing expected, nothing matched yet.
    fn default() -> (r: SubRule)
        ensures
            r.expected_count == 0,
            r.actual_count == 0,
            r.comparisons@.len() == 0,
    {
        SubRule { expected_count: 0, actual_count: 0, comparisons: Vec::new() }
    }
}

} // verus!
