//! Content-level writer for `.rules` files.
//!
//! The writer is pure: it takes the target file's current lines and
//! returns the new lines. The rule is validated against a vocabulary
//! snapshot first; then its trimmed text is appended, unless an
//! identical trimmed line already exists — duplicate detection is
//! byte-for-byte, not semantic.

use vstd::prelude::*;
use crate::error::RulesError;
use crate::parser::{ast_tokens, ast_wf, parse_rule};
use crate::strutil::{
    ends_with_chars,
    has_suffix,
    lemma_trim,
    to_chars,
    trim,
    trim_chars,
    chars_to_string,
};
use crate::tag_write::{clone_lines, clone_string};
use crate::token::{GTok, spec_tokenize};
use crate::types::{Ast, Tag};
use crate::validate::{ast_valid, lemma_valid_view, rule_ok, validate_ast};
use crate::vocab::chars_eq;

verus! {

/// The `.rules` file extension, as characters.
pub open spec fn rules_ext() -> Seq<char> {
    seq!['.', 'r', 'u', 'l', 'e', 's']
}

/// Appends the `.rules` extension unless the name already has it.
pub fn normalise_filename(file_name: &str) -> (r: String)
    ensures
        r@ == if has_suffix(file_name@, rules_ext()) {
            file_name@
        } else {
            file_name@ + rules_ext()
        },
{
    let chars = to_chars(file_name);
    let mut ext: Vec<char> = Vec::new();
    ext.push('.');
    ext.push('r');
    ext.push('u');
    ext.push('l');
    ext.push('e');
    ext.push('s');
    proof {
        assert(ext@ =~= rules_ext());
    }
    if ends_with_chars(&chars, &ext) {
        chars_to_string(&chars)
    } else {
        let mut out = chars;
        out.push('.');
        out.push('r');
        out.push('u');
        out.push('l');
        out.push('e');
        out.push('s');
        proof {
            assert(out@ =~= file_name@ + rules_ext());
        }
        chars_to_string(&out)
    }
}

/// The trimmed rule text already stands in the file.
pub open spec fn rule_dup(lines: Seq<Seq<char>>, rule: Seq<char>) -> bool {
    exists|k: int| 0 <= k < lines.len() && trim(#[trigger] lines[k]) == trim(rule)
}

/// Writing the same trimmed rule text twice to one file fails the
/// second write with a duplicate error: after a successful write the
/// appended file holds the rule, so the same text is a duplicate
/// there.
pub proof fn lemma_duplicate_write_rejected(lines: Seq<Seq<char>>, rule: Seq<char>)
    ensures
        rule_dup(lines.push(trim(rule)), rule),
{
    lemma_trim(rule);
    let k = lines.len() as int;
    assert(lines.push(trim(rule))[k] == trim(rule));
    assert(trim(trim(rule)) == trim(rule));
}

/// Computes the new lines of a `.rules` file after writing one rule.
///
/// The rule must parse and pass the vocabulary check; its trimmed
/// text must not already stand in the file. On success the trimmed
/// text is appended as a new last line.
pub fn write(existing: &Vec<String>, rule: &str, tags: &Vec<Tag>) -> (r: Result<
    Vec<String>,
    RulesError,
>)
    ensures
        r is Err ==> r->Err_0 is RuleParseError,
        r is Ok <==> (rule_ok(tags@, rule@) && !rule_dup(
            existing@.map_values(|s: String| s@),
            rule@,
        )),
        r is Ok ==> ({
            let lines = existing@.map_values(|s: String| s@);
            let out = (r->Ok_0)@.map_values(|s: String| s@);
            &&& !rule_dup(lines, rule@)
            &&& out == lines.push(trim(rule@))
            &&& exists|a: Ast|
                {
                    &&& #[trigger] ast_wf(a)
                    &&& spec_tokenize(rule@) == seq![GTok::Sym('-')] + ast_tokens(a)
                    &&& ast_valid(tags@, a)
                }
        }),
{
    let ghost lines = existing@.map_values(|s: String| s@);
    // Validate the rule before touching the file.
    let ast = match parse_rule(rule) {
        Ok(a) => a,
        Err(e) => {
            return Err(e);
        },
    };
    proof {
        lemma_valid_view(tags@, ast);
    }
    match validate_ast(tags, &ast) {
        Ok(()) => (),
        Err(e) => {
            return Err(e);
        },
    }
    // Reject byte-for-byte duplicates of the trimmed text.
    let rule_chars = to_chars(rule);
    let trimmed = trim_chars(&rule_chars);
    let mut k: usize = 0;
    while k < existing.len()
        invariant
            lines == existing@.map_values(|s: String| s@),
            trimmed@ == trim(rule@),
            k <= lines.len(),
            forall|k2: int| 0 <= k2 < k ==> trim(#[trigger] lines[k2]) != trim(rule@),
        decreases lines.len() - k,
    {
        proof {
            assert(lines[k as int] == existing@[k as int]@);
        }
        let line_chars = to_chars(existing[k].as_str());
        let line_trimmed = trim_chars(&line_chars);
        if chars_eq(&line_trimmed, &trimmed) {
            return Err(
                RulesError::RuleParseError(String::from_str("Rule already exists in file")),
            );
        }
        k = k + 1;
    }
    proof {
        if rule_dup(lines, rule@) {
            let k2 = choose|k2: int| 0 <= k2 < lines.len() && trim(#[trigger] lines[k2]) == trim(
                rule@,
            );
        }
    }
    let mut out = clone_lines(existing);
    let ghost before = out@.map_values(|s: String| s@);
    out.push(chars_to_string(&trimmed));
    proof {
        assert(out@.map_values(|s: String| s@) =~= lines.push(trim(rule@)));
        assert(ast_wf(ast));
    }
    Ok(out)
}

} // verus!
