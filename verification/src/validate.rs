//! Semantic validation of rules against the tag vocabulary, and the
//! compilation pipeline from rule text to evaluable clauses.
//!
//! The validator walks every comparison leaf of a parsed rule and
//! checks its tag name and each value against the vocabulary,
//! case-insensitively, reporting the first failure found.

use vstd::prelude::*;
use crate::error::RulesError;
use crate::dnf::normalize;
use crate::parser::{GAst, ast_tokens, ast_view, ast_wf, parse_rule, spec_parse_rule};
use crate::sem::{ObjV, ast_covered, ast_sem, clauses_wf, dnf_sem, dnf_view, obj_wf};
use crate::strutil::to_chars;
use crate::token::{GTok, spec_tokenize};
use crate::types::{Ast, SubRule, Tag};
use crate::vocab::{vocab_allows, vocab_allows_exec, vocab_has, vocab_has_exec};

verus! {

/// Every comparison of the tree names a known tag and, for each of
/// its values, a value that tag allows (case-insensitively).
pub open spec fn ast_valid(ts: Seq<Tag>, a: Ast) -> bool
    decreases a,
{
    match a {
        Ast::Comparison(c) => vocab_has(ts, c.tag@) && forall|j: int|
            0 <= j < c.values@.len() ==> vocab_allows(ts, c.tag@, (#[trigger] c.values@[j])@),
        Ast::And(l, r) => ast_valid(ts, *l) && ast_valid(ts, *r),
        Ast::Or(l, r) => ast_valid(ts, *l) && ast_valid(ts, *r),
        Ast::Group(i) => ast_valid(ts, *i),
        Ast::Negate(i) => ast_valid(ts, *i),
    }
}

/// Walks the tree and checks every comparison against the vocabulary,
/// stopping at the first unknown tag or disallowed value.
pub fn validate_ast(tags: &Vec<Tag>, a: &Ast) -> (r: Result<(), RulesError>)
    ensures
        r is Ok <==> ast_valid(tags@, *a),
        r is Err ==> r->Err_0 is RuleParseError,
    decreases *a,
{
    match a {
        Ast::Comparison(c) => {
            let tag_chars = to_chars(c.tag.as_str());
            if !vocab_has_exec(tags, &tag_chars) {
                return Err(
                    RulesError::RuleParseError(String::from_str("Unknown tag in rule")),
                );
            }
            let mut j: usize = 0;
            while j < c.values.len()
                invariant
                    *a == Ast::Comparison(*c),
                    vocab_has(tags@, c.tag@),
                    tag_chars@ == c.tag@,
                    j <= c.values@.len(),
                    forall|l: int|
                        0 <= l < j ==> vocab_allows(tags@, c.tag@, (#[trigger] c.values@[l])@),
                decreases c.values@.len() - j,
            {
                let value_chars = to_chars(c.values[j].as_str());
                if !vocab_allows_exec(tags, &tag_chars, &value_chars) {
                    proof {
                        assert(!vocab_allows(tags@, c.tag@, (c.values@[j as int])@));
                    }
                    return Err(
                        RulesError::RuleParseError(
                            String::from_str("Value not allowed for tag in rule"),
                        ),
                    );
                }
                j = j + 1;
            }
            Ok(())
        },
        Ast::And(l, r) => {
            let lr = validate_ast(tags, l);
            match lr {
                Ok(()) => validate_ast(tags, r),
                Err(e) => Err(e),
            }
        },
        Ast::Or(l, r) => {
            let lr = validate_ast(tags, l);
            match lr {
                Ok(()) => validate_ast(tags, r),
                Err(e) => Err(e),
            }
        },
        Ast::Group(i) => validate_ast(tags, i),
        Ast::Negate(i) => validate_ast(tags, i),
    }
}

/// Vocabulary validity over the mathematical tree form: every
/// comparison names a known tag and, for each value, a value that tag
/// allows (case-insensitively).
pub open spec fn g_cmp_valid(ts: Seq<Tag>, tag: Seq<char>, vs: Seq<Seq<char>>) -> bool {
    vocab_has(ts, tag) && forall|j: int|
        0 <= j < vs.len() ==> vocab_allows(ts, tag, #[trigger] vs[j])
}

pub open spec fn g_valid(ts: Seq<Tag>, g: GAst) -> bool
    decreases g,
{
    match g {
        GAst::Cmp(tag, _op, vs) => g_cmp_valid(ts, tag, vs),
        GAst::And(l, r) => g_valid(ts, *l) && g_valid(ts, *r),
        GAst::Or(l, r) => g_valid(ts, *l) && g_valid(ts, *r),
        GAst::Group(i) => g_valid(ts, *i),
        GAst::Negate(i) => g_valid(ts, *i),
    }
}

/// Validity of a tree and of its mathematical view agree.
pub proof fn lemma_valid_view(ts: Seq<Tag>, a: Ast)
    ensures
        ast_valid(ts, a) == g_valid(ts, ast_view(a)),
    decreases a,
{
    match a {
        Ast::Comparison(c) => {
            let vs = c.values@.map_values(|v: String| v@);
            assert(ast_view(a) == GAst::Cmp(c.tag@, c.op, vs));
            assert(g_valid(ts, ast_view(a)) == g_cmp_valid(ts, c.tag@, vs));
            if ast_valid(ts, a) {
                assert forall|j: int| 0 <= j < vs.len() implies vocab_allows(
                    ts,
                    c.tag@,
                    #[trigger] vs[j],
                ) by {
                    assert(vocab_allows(ts, c.tag@, (c.values@[j])@));
                }
                assert(g_cmp_valid(ts, c.tag@, vs));
            }
            if g_cmp_valid(ts, c.tag@, vs) {
                assert forall|j: int| 0 <= j < c.values@.len() implies vocab_allows(
                    ts,
                    c.tag@,
                    (#[trigger] c.values@[j])@,
                ) by {
                    assert(vocab_allows(ts, c.tag@, vs[j]));
                }
                assert(ast_valid(ts, a));
            }
        },
        Ast::And(l, r) => {
            lemma_valid_view(ts, *l);
            lemma_valid_view(ts, *r);
        },
        Ast::Or(l, r) => {
            lemma_valid_view(ts, *l);
            lemma_valid_view(ts, *r);
        },
        Ast::Group(i) => {
            lemma_valid_view(ts, *i);
        },
        Ast::Negate(i) => {
            lemma_valid_view(ts, *i);
        },
    }
}

/// The rule text is accepted: it follows the grammar, and the tree it
/// denotes passes the vocabulary check.
pub open spec fn rule_ok(ts: Seq<Tag>, rule: Seq<char>) -> bool {
    match spec_parse_rule(rule) {
        Option::Some(g) => g_valid(ts, g),
        Option::None => false,
    }
}

/// The relation between one rule's text and its compiled clauses:
/// the tree the grammar denotes (`spec_parse_rule`) passes the
/// vocabulary check, the clauses are exactly its reference normal
/// form (`g_norm`), and they mean what the tree means on every
/// well-formed object that covers its tags.
pub open spec fn compiled_from(ts: Seq<Tag>, rule: Seq<char>, cs: Seq<SubRule>) -> bool {
    exists|a: Ast|
        {
            &&& #[trigger] ast_wf(a)
            &&& spec_tokenize(rule) == seq![GTok::Sym('-')] + ast_tokens(a)
            &&& spec_parse_rule(rule) == Option::Some(ast_view(a))
            &&& ast_valid(ts, a)
            &&& dnf_view(cs) == crate::dnf::g_norm(ast_view(a), false)
            &&& forall|obj: ObjV|
                obj_wf(obj) && ast_covered(obj, a) ==> #[trigger] dnf_sem(obj, dnf_view(cs))
                    == ast_sem(obj, a)
        }
}

/// Parses one rule, validates it against the vocabulary, and compiles
/// it to disjunctive normal form.
pub fn compile_rule(tags: &Vec<Tag>, rule: &str) -> (r: Result<Vec<SubRule>, RulesError>)
    ensures
        r is Ok <==> rule_ok(tags@, rule@),
        r is Ok ==> clauses_wf(r->Ok_0@) && compiled_from(tags@, rule@, r->Ok_0@),
        r is Err ==> r->Err_0 is RuleParseError,
{
    let ast = match parse_rule(rule) {
        Ok(a) => a,
        Err(e) => {
            return Err(e);
        },
    };
    proof {
        lemma_valid_view(tags@, ast);
    }
    match validate_ast(tags, &ast) {
        Ok(()) => (),
        Err(e) => {
            return Err(e);
        },
    }
    let cs = normalize(&ast);
    proof {
        assert(compiled_from(tags@, rule@, cs@));
    }
    Ok(cs)
}

/// The relation between one rule's text and clauses obtained by
/// syntax alone: the tree the grammar denotes exists, the clauses are
/// exactly its reference normal form, and they mean what it means.
pub open spec fn parsed_from(rule: Seq<char>, cs: Seq<SubRule>) -> bool {
    exists|a: Ast|
        {
            &&& #[trigger] ast_wf(a)
            &&& spec_tokenize(rule) == seq![GTok::Sym('-')] + ast_tokens(a)
            &&& spec_parse_rule(rule) == Option::Some(ast_view(a))
            &&& dnf_view(cs) == crate::dnf::g_norm(ast_view(a), false)
            &&& forall|obj: ObjV|
                obj_wf(obj) && ast_covered(obj, a) ==> #[trigger] dnf_sem(obj, dnf_view(cs))
                    == ast_sem(obj, a)
        }
}

/// Parses and normalizes every non-blank line of the given `.rules`
/// file contents, without consulting any vocabulary: one clause set
/// per rule, in order.
pub fn parse_rules(sources: &Vec<String>) -> (r: Result<Vec<Vec<SubRule>>, RulesError>)
    ensures
        r is Ok <==> (forall|k: int|
            0 <= k < crate::orchestrator::src_rule_lines(sources@).len() ==> spec_parse_rule(
                #[trigger] crate::orchestrator::src_rule_lines(sources@)[k],
            ) is Some),
        r is Ok ==> ({
            let rl = crate::orchestrator::rule_lines(sources@.map_values(|s: String| s@));
            &&& (r->Ok_0)@.len() == rl.len()
            &&& forall|k: int|
                0 <= k < rl.len() ==> parsed_from(rl[k], (#[trigger] (r->Ok_0)@[k])@)
                    && clauses_wf((r->Ok_0)@[k]@)
        }),
        r is Err ==> r->Err_0 is RuleParseError,
{
    let ghost gsrcs = sources@.map_values(|s: String| s@);
    let mut out: Vec<Vec<SubRule>> = Vec::new();
    let mut i: usize = 0;
    while i < sources.len()
        invariant
            gsrcs == sources@.map_values(|s: String| s@),
            i <= gsrcs.len(),
            ({
                let rl = crate::orchestrator::rule_lines(gsrcs.take(i as int));
                &&& out@.len() == rl.len()
                &&& forall|k: int|
                    0 <= k < rl.len() ==> parsed_from(rl[k], (#[trigger] out@[k])@)
                        && clauses_wf(out@[k]@)
            }),
        decreases sources@.len() - i,
    {
        let chars = to_chars(sources[i].as_str());
        proof {
            assert(gsrcs[i as int] == sources@[i as int]@);
        }
        let lines = crate::strutil::split_on(&chars, '\n');
        let ghost glines = crate::strutil::split_char(gsrcs[i as int], '\n');
        let mut j: usize = 0;
        while j < lines.len()
            invariant
                gsrcs == sources@.map_values(|s: String| s@),
                i < gsrcs.len(),
                glines == crate::strutil::split_char(gsrcs[i as int], '\n'),
                glines == lines@.map_values(|l: Vec<char>| l@),
                j <= glines.len(),
                ({
                    let rl = crate::orchestrator::rule_lines(gsrcs.take(i as int))
                        + crate::orchestrator::rule_lines_of(glines.take(j as int));
                    &&& out@.len() == rl.len()
                    &&& forall|k: int|
                        0 <= k < rl.len() ==> parsed_from(rl[k], (#[trigger] out@[k])@)
                            && clauses_wf(out@[k]@)
                }),
            decreases lines@.len() - j,
        {
            proof {
                assert(glines[j as int] == lines@[j as int]@);
                assert(glines.take(j as int + 1).drop_last() =~= glines.take(j as int));
                assert(glines.take(j as int + 1).last() == glines[j as int]);
            }
            let line_trimmed = crate::strutil::trim_chars(&lines[j]);
            if line_trimmed.len() == 0 {
                j = j + 1;
                continue;
            }
            let line_str = crate::strutil::chars_to_string(&lines[j]);
            let ast = match parse_rule(line_str.as_str()) {
                Ok(a) => a,
                Err(e) => {
                    proof {
                        let full = crate::orchestrator::rule_lines(gsrcs);
                        let pre = crate::orchestrator::rule_lines(gsrcs.take(i as int))
                            + crate::orchestrator::rule_lines_of(glines.take(j as int));
                        let pre2 = crate::orchestrator::rule_lines(gsrcs.take(i as int))
                            + crate::orchestrator::rule_lines_of(glines.take(j as int + 1));
                        crate::orchestrator::lemma_rule_lines_mid(gsrcs, i as int, j as int + 1);
                        assert(crate::orchestrator::rule_lines_of(glines.take(j as int + 1))
                            == crate::orchestrator::rule_lines_of(glines.take(j as int)) + seq![
                            glines[j as int],
                        ]);
                        assert(pre2 =~= pre.push(glines[j as int]));
                        assert(full[pre.len() as int] == pre2[pre.len() as int]) by {
                            assert(pre2 == full.subrange(0, pre2.len() as int));
                        }
                        assert(full[pre.len() as int] == glines[j as int]);
                        assert(!(spec_parse_rule(full[pre.len() as int]) is Some));
                    }
                    return Err(e);
                },
            };
            let cs = normalize(&ast);
            let ghost before = out@;
            out.push(cs);
            proof {
                let rl = crate::orchestrator::rule_lines(gsrcs.take(i as int))
                    + crate::orchestrator::rule_lines_of(glines.take(j as int + 1));
                let rlb = crate::orchestrator::rule_lines(gsrcs.take(i as int))
                    + crate::orchestrator::rule_lines_of(glines.take(j as int));
                assert(crate::orchestrator::rule_lines_of(glines.take(j as int + 1))
                    == crate::orchestrator::rule_lines_of(glines.take(j as int)) + seq![
                    glines[j as int],
                ]);
                assert(rl =~= rlb.push(glines[j as int]));
                assert forall|k: int|
                    0 <= k < rl.len() implies parsed_from(rl[k], (#[trigger] out@[k])@)
                    && clauses_wf(out@[k]@) by {
                    if k < rl.len() - 1 {
                        assert(out@[k] == before[k]);
                        assert(rl[k] == rlb[k]);
                    } else {
                        assert(rl[k] == glines[j as int]);
                        assert(out@[k] == cs);
                        assert(parsed_from(glines[j as int], cs@));
                    }
                }
            }
            j = j + 1;
        }
        proof {
            assert(glines.take(glines.len() as int) =~= glines);
            assert(gsrcs.take(i as int + 1).drop_last() =~= gsrcs.take(i as int));
            assert(gsrcs.take(i as int + 1).last() == gsrcs[i as int]);
            assert(crate::orchestrator::rule_lines(gsrcs.take(i as int + 1))
                == crate::orchestrator::rule_lines(gsrcs.take(i as int))
                + crate::orchestrator::rule_lines_of(glines));
        }
        i = i + 1;
    }
    proof {
        assert(gsrcs.take(gsrcs.len() as int) =~= gsrcs);
        let rl = crate::orchestrator::rule_lines(gsrcs);
        assert forall|k: int| 0 <= k < rl.len() implies spec_parse_rule(
            #[trigger] rl[k],
        ) is Some by {
            assert(parsed_from(rl[k], out@[k]@));
            let a = choose|a: Ast|
                {
                    &&& #[trigger] ast_wf(a)
                    &&& spec_tokenize(rl[k]) == seq![GTok::Sym('-')] + ast_tokens(a)
                    &&& spec_parse_rule(rl[k]) == Option::Some(ast_view(a))
                    &&& dnf_view(out@[k]@) == crate::dnf::g_norm(ast_view(a), false)
                    &&& forall|obj: ObjV|
                        obj_wf(obj) && ast_covered(obj, a) ==> #[trigger] dnf_sem(
                            obj,
                            dnf_view(out@[k]@),
                        ) == ast_sem(obj, a)
                };
        }
    }
    Ok(out)
}

/// The parser facade of the engine: a vocabulary snapshot plus the
/// syntax and semantic checks against it.
pub struct RuleParser {
    tags: Vec<Tag>,
}

impl RuleParser {
    /// Builds a parser over a vocabulary snapshot.
    pub fn new(tags: Vec<Tag>) -> (r: RuleParser)
        ensures
            r.tags_spec() == tags@,
    {
        RuleParser { tags }
    }

    /// The vocabulary the parser validates against.
    pub closed spec fn tags_spec(&self) -> Seq<Tag> {
        self.tags@
    }

    /// Checks one rule string: syntax first, then every tag and value
    /// against the vocabulary. On success some well-formed tree
    /// matches the rule's tokens and passes the vocabulary check.
    pub fn validate_rule(&self, rule: &str) -> (r: Result<(), RulesError>)
        ensures
            r is Ok <==> rule_ok(self.tags_spec(), rule@),
            r is Err ==> r->Err_0 is RuleParseError,
    {
        let ast = match parse_rule(rule) {
            Ok(a) => a,
            Err(e) => {
                return Err(e);
            },
        };
        proof {
            lemma_valid_view(self.tags@, ast);
        }
        match validate_ast(&self.tags, &ast) {
            Ok(()) => Ok(()),
            Err(e) => Err(e),
        }
    }
}

} // verus!
