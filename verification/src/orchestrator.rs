//! Business logic orchestration: loads the vocabulary, compiles every
//! rule once, and keeps the compiled clause sets for repeated
//! evaluation.

use vstd::prelude::*;
use crate::error::RulesError;
use crate::eval::{evaluate_object, object_wf_exec};
use crate::sem::{clauses_wf, dnf_sem, dnf_view, obj_view, obj_wf};
use crate::strutil::{split_char, split_on, to_chars, trim, trim_chars, chars_to_string};
use crate::tags::{parse_tags, sources_ok, tags_of_sources};
use crate::types::{Object, SubRule, Tag};
use crate::validate::{compile_rule, compiled_from, lemma_valid_view, rule_ok};
use crate::parser::{ast_tokens, ast_view, ast_wf, spec_parse_rule};
use crate::token::{GTok, spec_tokenize};
use crate::types::Ast;
use crate::sem::{ObjV, ast_covered, ast_sem};
use crate::strutil::lower;

verus! {

/// The non-blank lines of a rule file, in order: one rule each.
pub open spec fn rule_lines_of(lines: Seq<Seq<char>>) -> Seq<Seq<char>>
    decreases lines.len(),
{
    if lines.len() == 0 {
        Seq::empty()
    } else {
        rule_lines_of(lines.drop_last()) + (if trim(lines.last()).len() == 0 {
            Seq::empty()
        } else {
            seq![lines.last()]
        })
    }
}

/// The rule lines of several sources, each split into lines.
pub open spec fn rule_lines(srcs: Seq<Seq<char>>) -> Seq<Seq<char>>
    decreases srcs.len(),
{
    if srcs.len() == 0 {
        Seq::empty()
    } else {
        rule_lines(srcs.drop_last()) + rule_lines_of(split_char(srcs.last(), '\n'))
    }
}

/// The rule lines of several sources given as strings.
pub open spec fn src_rule_lines(sources: Seq<String>) -> Seq<Seq<char>> {
    rule_lines(sources.map_values(|s: String| s@))
}

/// The rule lines of a prefix of the lines are a prefix of the whole.
pub proof fn lemma_rule_lines_of_prefix(lines: Seq<Seq<char>>, j: int)
    requires
        0 <= j <= lines.len(),
    ensures
        rule_lines_of(lines.take(j)).len() <= rule_lines_of(lines).len(),
        rule_lines_of(lines.take(j)) == rule_lines_of(lines).subrange(
            0,
            rule_lines_of(lines.take(j)).len() as int,
        ),
    decreases lines.len() - j,
{
    if j == lines.len() {
        assert(lines.take(j) =~= lines);
        assert(rule_lines_of(lines).subrange(0, rule_lines_of(lines).len() as int) =~= rule_lines_of(
            lines,
        ));
    } else {
        lemma_rule_lines_of_prefix(lines, j + 1);
        assert(lines.take(j + 1).drop_last() =~= lines.take(j));
        assert(lines.take(j + 1).last() == lines[j]);
        let a = rule_lines_of(lines.take(j));
        let b = rule_lines_of(lines.take(j + 1));
        let f = rule_lines_of(lines);
        assert(a.len() <= b.len() && a == b.subrange(0, a.len() as int));
        assert(a =~= f.subrange(0, a.len() as int)) by {
            assert(b == f.subrange(0, b.len() as int));
            assert forall|k: int| 0 <= k < a.len() implies a[k] == f.subrange(
                0,
                a.len() as int,
            )[k] by {
                assert(a[k] == b.subrange(0, a.len() as int)[k]);
                assert(b[k] == f.subrange(0, b.len() as int)[k]);
            }
        }
    }
}

/// The rule lines collected up to line `j` of source `i` are a prefix
/// of the rule lines of all sources.
pub proof fn lemma_rule_lines_mid(srcs: Seq<Seq<char>>, i: int, j: int)
    requires
        0 <= i < srcs.len(),
        0 <= j <= split_char(srcs[i], '\n').len(),
    ensures
        ({
            let pre = rule_lines(srcs.take(i)) + rule_lines_of(split_char(srcs[i], '\n').take(j));
            pre.len() <= rule_lines(srcs).len() && pre == rule_lines(srcs).subrange(
                0,
                pre.len() as int,
            )
        }),
{
    let lines = split_char(srcs[i], '\n');
    let pre = rule_lines(srcs.take(i)) + rule_lines_of(lines.take(j));
    lemma_rule_lines_of_prefix(lines, j);
    assert(srcs.take(i + 1).drop_last() =~= srcs.take(i));
    assert(srcs.take(i + 1).last() == srcs[i]);
    assert(rule_lines(srcs.take(i + 1)) == rule_lines(srcs.take(i)) + rule_lines_of(lines));
    lemma_rule_lines_src_prefix(srcs, i + 1);
    let b = rule_lines(srcs.take(i + 1));
    let f = rule_lines(srcs);
    assert(pre =~= f.subrange(0, pre.len() as int)) by {
        assert(b == f.subrange(0, b.len() as int));
        assert forall|k: int| 0 <= k < pre.len() implies pre[k] == f.subrange(
            0,
            pre.len() as int,
        )[k] by {
            if k < rule_lines(srcs.take(i)).len() {
                assert(pre[k] == rule_lines(srcs.take(i))[k]);
                assert(b[k] == rule_lines(srcs.take(i))[k]);
            } else {
                assert(pre[k] == rule_lines_of(lines.take(j))[k - rule_lines(srcs.take(i)).len()]);
                assert(rule_lines_of(lines.take(j))[k - rule_lines(srcs.take(i)).len()]
                    == rule_lines_of(lines)[k - rule_lines(srcs.take(i)).len()]);
                assert(b[k] == rule_lines_of(lines)[k - rule_lines(srcs.take(i)).len()]);
            }
            assert(b[k] == f.subrange(0, b.len() as int)[k]);
        }
    }
}

/// The rule lines of a prefix of the sources are a prefix of the
/// whole.
pub proof fn lemma_rule_lines_src_prefix(srcs: Seq<Seq<char>>, i: int)
    requires
        0 <= i <= srcs.len(),
    ensures
        rule_lines(srcs.take(i)).len() <= rule_lines(srcs).len(),
        rule_lines(srcs.take(i)) == rule_lines(srcs).subrange(
            0,
            rule_lines(srcs.take(i)).len() as int,
        ),
    decreases srcs.len() - i,
{
    if i == srcs.len() {
        assert(srcs.take(i) =~= srcs);
        assert(rule_lines(srcs).subrange(0, rule_lines(srcs).len() as int) =~= rule_lines(srcs));
    } else {
        lemma_rule_lines_src_prefix(srcs, i + 1);
        assert(srcs.take(i + 1).drop_last() =~= srcs.take(i));
        assert(srcs.take(i + 1).last() == srcs[i]);
        let a = rule_lines(srcs.take(i));
        let b = rule_lines(srcs.take(i + 1));
        let f = rule_lines(srcs);
        assert(b == a + rule_lines_of(split_char(srcs[i], '\n')));
        assert(a =~= f.subrange(0, a.len() as int)) by {
            assert(b == f.subrange(0, b.len() as int));
            assert forall|k: int| 0 <= k < a.len() implies a[k] == f.subrange(
                0,
                a.len() as int,
            )[k] by {
                assert(a[k] == b[k]);
                assert(b[k] == f.subrange(0, b.len() as int)[k]);
            }
        }
    }
}

/// The vocabulary `tags` is what loading `tag_srcs` yields: the
/// parsed (name, values) pairs, lowercased, in order.
pub open spec fn loaded_tags(tag_srcs: Seq<Seq<char>>, tags: Seq<Tag>) -> bool {
    let ts = tags_of_sources(tag_srcs);
    &&& tags.len() == ts.len()
    &&& forall|k: int|
        0 <= k < ts.len() ==> (#[trigger] tags[k].name)@ == lower(ts[k].0)
            && tags[k].values@.map_values(|v: String| v@) == ts[k].1.map_values(
            |p: Seq<char>| lower(p),
        )
}

/// The clause sets `css` are what compiling the rule lines of
/// `rule_srcs` against `tags` yields, rule by rule.
pub open spec fn compiled_rules(rule_srcs: Seq<Seq<char>>, tags: Seq<Tag>, css: Seq<
    Vec<SubRule>,
>) -> bool {
    let rl = rule_lines(rule_srcs);
    &&& css.len() == rl.len()
    &&& forall|k: int|
        0 <= k < rl.len() ==> compiled_from(tags, rl[k], (#[trigger] css[k])@) && clauses_wf(
            css[k]@,
        )
}

/// The vocabulary `ts` is what loading the sources (as strings) yields.
pub open spec fn src_loaded_tags(sources: Seq<String>, ts: Seq<Tag>) -> bool {
    loaded_tags(sources.map_values(|s: String| s@), ts)
}

/// Every rule line of the sources is accepted against the vocabulary:
/// it parses, and its tree passes the vocabulary check.
pub open spec fn rules_all_ok(ts: Seq<Tag>, sources: Seq<String>) -> bool {
    forall|k: int|
        0 <= k < src_rule_lines(sources).len() ==> rule_ok(
            ts,
            #[trigger] src_rule_lines(sources)[k],
        )
}

/// Owns the loaded vocabulary and the compiled clause sets of every
/// rule, ready for repeated evaluation.
pub struct Orchestrator {
    m_tags: Vec<Tag>,
    m_subrules: Vec<Vec<SubRule>>,
}

impl Orchestrator {
    /// The loaded vocabulary.
    pub closed spec fn tags_spec(&self) -> Seq<Tag> {
        self.m_tags@
    }

    /// The compiled clause sets, one per rule.
    pub closed spec fn subrules_spec(&self) -> Seq<Vec<SubRule>> {
        self.m_subrules@
    }

    /// Loads the vocabulary from `.tags` file contents: the cache is
    /// rebuilt and swapped on success only, so a failed load leaves
    /// the previous vocabulary in place.
    fn map_tags(&mut self, tag_sources: &Vec<String>) -> (r: Result<(), RulesError>)
        ensures
            final(self).subrules_spec() == old(self).subrules_spec(),
            r is Ok <==> sources_ok(tag_sources@.map_values(|s: String| s@)),
            r is Ok ==> loaded_tags(
                tag_sources@.map_values(|s: String| s@),
                final(self).tags_spec(),
            ),
            r is Err ==> r->Err_0 is TagParseError && final(self).tags_spec() == old(
                self,
            ).tags_spec(),
    {
        let parsed = match parse_tags(tag_sources) {
            Ok(p) => p,
            Err(e) => {
                return Err(e);
            },
        };
        self.m_tags = Vec::new();
        let ghost ts = tags_of_sources(tag_sources@.map_values(|s: String| s@));
        proof {
            assert(parsed@.len() == ts.len());
            assert forall|k2: int| 0 <= k2 < ts.len() implies (#[trigger] parsed@[k2].name)@
                == ts[k2].0 by {}
            assert forall|k2: int| 0 <= k2 < ts.len() implies parsed@[k2].values@.map_values(
                |v: String| v@,
            ) == ts[k2].1 by {
                assert((#[trigger] parsed@[k2].name)@ == ts[k2].0);
            }
        }
        let mut k: usize = 0;
        while k < parsed.len()
            invariant
                self.m_subrules@ == old(self).m_subrules@,
                ts == tags_of_sources(tag_sources@.map_values(|s: String| s@)),
                parsed@.len() == ts.len(),
                forall|k2: int|
                    0 <= k2 < ts.len() ==> (#[trigger] parsed@[k2].name)@ == ts[k2].0
                        && parsed@[k2].values@.map_values(|v: String| v@) == ts[k2].1,
                k <= ts.len(),
                self.m_tags@.len() == k,
                forall|k2: int|
                    0 <= k2 < k ==> (#[trigger] self.m_tags@[k2].name)@ == lower(ts[k2].0)
                        && self.m_tags@[k2].values@.map_values(|v: String| v@)
                        == ts[k2].1.map_values(|p: Seq<char>| lower(p)),
            decreases parsed@.len() - k,
        {
            let entry = &parsed[k];
            let lname = chars_to_string(&crate::strutil::lower_chars(&to_chars(
                entry.name.as_str(),
            )));
            let mut lvals: Vec<String> = Vec::new();
            let mut j: usize = 0;
            while j < entry.values.len()
                invariant
                    k < ts.len(),
                    entry.values@.map_values(|v: String| v@) == ts[k as int].1,
                    j <= entry.values@.len(),
                    lvals@.len() == j,
                    forall|l: int|
                        0 <= l < j ==> (#[trigger] lvals@[l])@ == lower(ts[k as int].1[l]),
                decreases entry.values@.len() - j,
            {
                proof {
                    assert(entry.values@.map_values(|v: String| v@)[j as int] == entry.values@[
                        j as int]@);
                }
                lvals.push(chars_to_string(&crate::strutil::lower_chars(&to_chars(
                    entry.values[j].as_str(),
                ))));
                j = j + 1;
            }
            proof {
                assert(entry.values@.map_values(|v: String| v@).len() == entry.values@.len());
            }
            let ghost glvals = lvals@;
            self.m_tags.push(Tag { name: lname, values: lvals });
            proof {
                assert(self.m_tags@.last().values@.map_values(|v: String| v@) =~= ts[k as int].1
                    .map_values(|p: Seq<char>| lower(p))) by {
                    assert forall|l: int| #![trigger glvals[l]]
                        0 <= l < glvals.len() implies glvals.map_values(|v: String| v@)[l]
                        == ts[k as int].1.map_values(|p: Seq<char>| lower(p))[l] by {
                        assert(glvals[l]@ == lower(ts[k as int].1[l]));
                    }
                    assert(glvals.map_values(|v: String| v@).len() == ts[k as int].1.map_values(
                        |p: Seq<char>| lower(p),
                    ).len());
                }
            }
            k = k + 1;
        }
        Ok(())
    }

    /// Tokenizes, parses, validates and normalizes every rule line,
    /// and stores the compiled clause sets in order. The store is
    /// rebuilt and swapped on success only: a failed compile leaves
    /// the previous clause sets in place.
    fn map_subrules(&mut self, rule_sources: &Vec<String>) -> (r: Result<(), RulesError>)
        ensures
            final(self).tags_spec() == old(self).tags_spec(),
            r is Ok <==> rules_all_ok(old(self).tags_spec(), rule_sources@),
            r is Ok ==> compiled_rules(
                rule_sources@.map_values(|s: String| s@),
                final(self).tags_spec(),
                final(self).subrules_spec(),
            ),
            r is Err ==> r->Err_0 is RuleParseError && final(self).subrules_spec() == old(
                self,
            ).subrules_spec(),
    {
        let ghost gsrcs = rule_sources@.map_values(|s: String| s@);
        let mut out: Vec<Vec<SubRule>> = Vec::new();
        let mut i: usize = 0;
        while i < rule_sources.len()
            invariant
                *self == *old(self),
                gsrcs == rule_sources@.map_values(|s: String| s@),
                i <= gsrcs.len(),
                ({
                    let rl = rule_lines(gsrcs.take(i as int));
                    &&& out@.len() == rl.len()
                    &&& forall|k: int|
                        0 <= k < rl.len() ==> compiled_from(
                            self.m_tags@,
                            rl[k],
                            (#[trigger] out@[k])@,
                        ) && clauses_wf(out@[k]@)
                }),
            decreases rule_sources@.len() - i,
        {
            let chars = to_chars(rule_sources[i].as_str());
            proof {
                assert(gsrcs[i as int] == rule_sources@[i as int]@);
            }
            let lines = split_on(&chars, '\n');
            let ghost glines = split_char(gsrcs[i as int], '\n');
            let mut j: usize = 0;
            while j < lines.len()
                invariant
                    *self == *old(self),
                    gsrcs == rule_sources@.map_values(|s: String| s@),
                    i < gsrcs.len(),
                    glines == split_char(gsrcs[i as int], '\n'),
                    glines == lines@.map_values(|l: Vec<char>| l@),
                    j <= glines.len(),
                    ({
                        let rl = rule_lines(gsrcs.take(i as int)) + rule_lines_of(
                            glines.take(j as int),
                        );
                        &&& out@.len() == rl.len()
                        &&& forall|k: int|
                            0 <= k < rl.len() ==> compiled_from(
                                self.m_tags@,
                                rl[k],
                                (#[trigger] out@[k])@,
                            ) && clauses_wf(out@[k]@)
                    }),
                decreases lines@.len() - j,
            {
                proof {
                    assert(glines[j as int] == lines@[j as int]@);
                    assert(glines.take(j as int + 1).drop_last() =~= glines.take(j as int));
                    assert(glines.take(j as int + 1).last() == glines[j as int]);
                }
                let line_trimmed = trim_chars(&lines[j]);
                if line_trimmed.len() == 0 {
                    j = j + 1;
                    continue;
                }
                let line_str = chars_to_string(&lines[j]);
                let cs = match compile_rule(&self.m_tags, line_str.as_str()) {
                    Ok(c) => c,
                    Err(e) => {
                        proof {
                            let full = rule_lines(gsrcs);
                            let pre = rule_lines(gsrcs.take(i as int)) + rule_lines_of(
                                glines.take(j as int),
                            );
                            let pre2 = rule_lines(gsrcs.take(i as int)) + rule_lines_of(
                                glines.take(j as int + 1),
                            );
                            lemma_rule_lines_mid(gsrcs, i as int, j as int + 1);
                            assert(rule_lines_of(glines.take(j as int + 1)) == rule_lines_of(
                                glines.take(j as int),
                            ) + seq![glines[j as int]]);
                            assert(pre2 =~= pre.push(glines[j as int]));
                            assert(full[pre.len() as int] == pre2[pre.len() as int]) by {
                                assert(pre2 == full.subrange(0, pre2.len() as int));
                            }
                            assert(full[pre.len() as int] == glines[j as int]);
                            assert(!rule_ok(self.m_tags@, full[pre.len() as int]));
                            assert(src_rule_lines(rule_sources@) == full);
                            assert(!rules_all_ok(old(self).tags_spec(), rule_sources@));
                        }
                        return Err(e);
                    },
                };
                let ghost before = out@;
                out.push(cs);
                proof {
                    let rl = rule_lines(gsrcs.take(i as int)) + rule_lines_of(
                        glines.take(j as int + 1),
                    );
                    let rlb = rule_lines(gsrcs.take(i as int)) + rule_lines_of(
                        glines.take(j as int),
                    );
                    assert(rule_lines_of(glines.take(j as int + 1)) == rule_lines_of(
                        glines.take(j as int),
                    ) + seq![glines[j as int]]);
                    assert(rl =~= rlb.push(glines[j as int]));
                    assert forall|k: int|
                        0 <= k < rl.len() implies compiled_from(
                        self.m_tags@,
                        rl[k],
                        (#[trigger] out@[k])@,
                    ) && clauses_wf(out@[k]@) by {
                        if k < rl.len() - 1 {
                            assert(out@[k] == before[k]);
                            assert(rl[k] == rlb[k]);
                        } else {
                            assert(rl[k] == glines[j as int]);
                            assert(out@[k] == cs);
                        }
                    }
                }
                j = j + 1;
            }
            proof {
                assert(glines.take(glines.len() as int) =~= glines);
                assert(gsrcs.take(i as int + 1).drop_last() =~= gsrcs.take(i as int));
                assert(gsrcs.take(i as int + 1).last() == gsrcs[i as int]);
                assert(rule_lines(gsrcs.take(i as int + 1)) == rule_lines(gsrcs.take(i as int))
                    + rule_lines_of(glines));
            }
            i = i + 1;
        }
        proof {
            assert(gsrcs.take(gsrcs.len() as int) =~= gsrcs);
            let rl = rule_lines(gsrcs);
            assert forall|k: int| 0 <= k < rl.len() implies rule_ok(
                self.m_tags@,
                #[trigger] src_rule_lines(rule_sources@)[k],
            ) by {
                assert(src_rule_lines(rule_sources@) == rl);
                assert(compiled_from(self.m_tags@, rl[k], out@[k]@));
                let a = choose|a: Ast|
                    {
                        &&& #[trigger] ast_wf(a)
                        &&& spec_tokenize(rl[k]) == seq![GTok::Sym('-')] + ast_tokens(a)
                        &&& spec_parse_rule(rl[k]) == Option::Some(ast_view(a))
                        &&& crate::validate::ast_valid(self.m_tags@, a)
                        &&& dnf_view(out@[k]@) == crate::dnf::g_norm(ast_view(a), false)
                        &&& forall|obj: ObjV|
                            obj_wf(obj) && ast_covered(obj, a) ==> #[trigger] dnf_sem(
                                obj,
                                dnf_view(out@[k]@),
                            ) == ast_sem(obj, a)
                    };
                lemma_valid_view(self.m_tags@, a);
            }
        }
        self.m_subrules = out;
        Ok(())
    }

    /// Builds an orchestrator from tag and rule file contents:
    /// vocabulary first, then every rule parsed, validated against it
    /// and compiled to clauses.
    pub fn run(tag_sources: &Vec<String>, rule_sources: &Vec<String>) -> (r: Result<
        Orchestrator,
        RulesError,
    >)
        ensures
            r is Err ==> (r->Err_0 is TagParseError || r->Err_0 is RuleParseError),
            r is Ok ==> sources_ok(tag_sources@.map_values(|s: String| s@)) && loaded_tags(
                tag_sources@.map_values(|s: String| s@),
                r->Ok_0.tags_spec(),
            ) && compiled_rules(
                rule_sources@.map_values(|s: String| s@),
                r->Ok_0.tags_spec(),
                r->Ok_0.subrules_spec(),
            ) && rules_all_ok(r->Ok_0.tags_spec(), rule_sources@),
            r is Err ==> !sources_ok(tag_sources@.map_values(|s: String| s@)) || (exists|
                ts: Seq<Tag>,
            |
                #[trigger] src_loaded_tags(tag_sources@, ts) && !rules_all_ok(
                    ts,
                    rule_sources@,
                )),
    {
        let mut orch = Orchestrator { m_tags: Vec::new(), m_subrules: Vec::new() };
        match orch.map_tags(tag_sources) {
            Ok(()) => (),
            Err(e) => {
                return Err(e);
            },
        }
        match orch.map_subrules(rule_sources) {
            Ok(()) => (),
            Err(e) => {
                proof {
                    assert(src_loaded_tags(tag_sources@, orch.m_tags@) && !rules_all_ok(
                        orch.m_tags@,
                        rule_sources@,
                    ));
                }
                return Err(e);
            },
        }
        Ok(orch)
    }

    /// Evaluates one object against every compiled rule: the
    /// ascending indices of the satisfied rules. The object must not
    /// repeat an attribute name.
    pub fn evaluate_one(&self, obj: &Object) -> (r: Result<Vec<usize>, RulesError>)
        requires
            forall|i: int|
                0 <= i < self.subrules_spec().len() ==> clauses_wf(
                    (#[trigger] self.subrules_spec()[i])@,
                ),
        ensures
            r is Ok <==> obj_wf(obj_view(obj@)),
            r is Ok ==> ({
                let row = (r->Ok_0)@;
                &&& forall|p: int, q: int| 0 <= p < q < row.len() ==> row[p] < row[q]
                &&& forall|i: int|
                    0 <= i < self.subrules_spec().len() ==> ((#[trigger] row.contains(i as usize))
                        <==> dnf_sem(
                        obj_view(obj@),
                        dnf_view((#[trigger] self.subrules_spec()[i])@),
                    ))
            }),
            r is Err ==> r->Err_0 is TagParseError,
    {
        if !object_wf_exec(obj) {
            return Err(
                RulesError::TagParseError(
                    String::from_str("Object attribute names must be unique"),
                ),
            );
        }
        proof {
            assert forall|i: int| 0 <= i < self.m_subrules@.len() implies clauses_wf(
                (#[trigger] self.m_subrules@[i])@,
            ) by {
                assert(clauses_wf((self.subrules_spec()[i])@));
            }
        }
        let row = evaluate_object(&self.m_subrules, obj);
        Ok(row)
    }
}

} // verus!
