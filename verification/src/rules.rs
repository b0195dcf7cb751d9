//! Main API of the rules engine.
//!
//! A [`Rules`] value owns a vocabulary snapshot loaded from `.tags`
//! sources and offers validation, persistence-content computation and
//! evaluation against it. All file reading and writing stays with the
//! caller: the load and write methods exchange file contents as plain
//! strings and lines.

use vstd::prelude::*;
use crate::error::RulesError;
use crate::eval::{evaluate_object, object_wf_exec};
use crate::parser::{ast_tokens, ast_wf, parse_rule};
use crate::rule_write;
use crate::object_write;
use crate::sem::{dnf_sem, dnf_view, obj_view, obj_wf};
use crate::strutil::{lower, lower_chars, to_chars, trim, chars_to_string};
use crate::tag_write;
use crate::tags::{parse_tags, sources_ok, tags_of_sources};
use crate::token::{GTok, spec_tokenize};
use crate::types::{Ast, Object, SubRule, Tag};
use crate::validate::{ast_valid, compile_rule, compiled_from, lemma_valid_view, rule_ok, validate_ast};

verus! {

/// The engine: a config directory name and the cached tag vocabulary.
pub struct Rules {
    /// Base directory for config files; kept for the caller's I/O
    /// layer, the engine itself never touches the file system.
    config_dir: String,
    /// Cached tags, lowercased, in load order.
    tags: Vec<Tag>,
}

impl Rules {
    /// The cached vocabulary.
    pub closed spec fn tags_spec(&self) -> Seq<Tag> {
        self.tags@
    }

    /// The configured directory name.
    pub closed spec fn config_dir_spec(&self) -> Seq<char> {
        self.config_dir@
    }

    /// Creates an engine for the given config directory, with an
    /// empty vocabulary.
    pub fn new(config_dir: &str) -> (r: Rules)
        ensures
            r.config_dir_spec() == config_dir@,
            r.tags_spec().len() == 0,
    {
        Rules { config_dir: String::from_str(config_dir), tags: Vec::new() }
    }

    /// The configured directory name, for the caller's I/O layer.
    pub fn config_dir(&self) -> (r: &String)
        ensures
            r@ == self.config_dir_spec(),
    {
        &self.config_dir
    }

    /// Replaces the cached vocabulary with the tags parsed from the
    /// given `.tags` file contents, names and values lowercased. The
    /// cache is rebuilt and swapped on success only: when any line is
    /// neither blank, nor a comment, nor a valid tag line, the load
    /// fails and the previous vocabulary stays in place.
    pub fn load_tags(&mut self, sources: &Vec<String>) -> (r: Result<(), RulesError>)
        ensures
            final(self).config_dir_spec() == old(self).config_dir_spec(),
            r is Ok <==> sources_ok(sources@.map_values(|s: String| s@)),
            r is Err ==> r->Err_0 is TagParseError && final(self).tags_spec() == old(
                self,
            ).tags_spec(),
            r is Ok ==> ({
                let ts = tags_of_sources(sources@.map_values(|s: String| s@));
                &&& final(self).tags_spec().len() == ts.len()
                &&& forall|k: int|
                    0 <= k < ts.len() ==> (#[trigger] final(self).tags_spec()[k].name)@ == lower(
                        ts[k].0,
                    ) && final(self).tags_spec()[k].values@.map_values(|v: String| v@)
                        == ts[k].1.map_values(|p: Seq<char>| lower(p))
            }),
    {
        let parsed = match parse_tags(sources) {
            Ok(p) => p,
            Err(e) => {
                return Err(e);
            },
        };
        self.tags = Vec::new();
        let ghost ts = tags_of_sources(sources@.map_values(|s: String| s@));
        proof {
            assert(parsed@.len() == ts.len());
            assert forall|k2: int| 0 <= k2 < ts.len() implies (#[trigger] parsed@[k2].name)@
                == ts[k2].0 by {}
            assert forall|k2: int| 0 <= k2 < ts.len() implies parsed@[k2].values@.map_values(
                |v: String| v@,
            ) == ts[k2].1 by {
                assert((#[trigger] parsed@[k2].name)@ == ts[k2].0);
            }
        }
        let mut k: usize = 0;
        while k < parsed.len()
            invariant
                self.config_dir@ == old(self).config_dir@,
                ts == tags_of_sources(sources@.map_values(|s: String| s@)),
                parsed@.len() == ts.len(),
                forall|k2: int|
                    0 <= k2 < ts.len() ==> (#[trigger] parsed@[k2].name)@ == ts[k2].0
                        && parsed@[k2].values@.map_values(|v: String| v@) == ts[k2].1,
                k <= ts.len(),
                self.tags@.len() == k,
                forall|k2: int|
                    0 <= k2 < k ==> (#[trigger] self.tags@[k2].name)@ == lower(ts[k2].0)
                        && self.tags@[k2].values@.map_values(|v: String| v@) == ts[k2].1.map_values(
                        |p: Seq<char>| lower(p),
                    ),
            decreases parsed@.len() - k,
        {
            let entry = &parsed[k];
            let lname = chars_to_string(&lower_chars(&to_chars(entry.name.as_str())));
            let mut lvals: Vec<String> = Vec::new();
            let mut j: usize = 0;
            while j < entry.values.len()
                invariant
                    k < ts.len(),
                    entry.values@.map_values(|v: String| v@) == ts[k as int].1,
                    j <= entry.values@.len(),
                    lvals@.len() == j,
                    forall|l: int|
                        0 <= l < j ==> (#[trigger] lvals@[l])@ == lower(ts[k as int].1[l]),
                decreases entry.values@.len() - j,
            {
                proof {
                    assert(entry.values@.map_values(|v: String| v@)[j as int] == entry.values@[
                        j as int]@);
                }
                lvals.push(chars_to_string(&lower_chars(&to_chars(entry.values[j].as_str()))));
                j = j + 1;
            }
            proof {
                assert(entry.values@.map_values(|v: String| v@).len() == entry.values@.len());
            }
            let ghost glvals = lvals@;
            self.tags.push(Tag { name: lname, values: lvals });
            proof {
                assert(self.tags@.last().values@.map_values(|v: String| v@) =~= ts[k as int].1
                    .map_values(|p: Seq<char>| lower(p))) by {
                    assert forall|l: int| #![trigger glvals[l]]
                        0 <= l < glvals.len() implies glvals.map_values(|v: String| v@)[l]
                        == ts[k as int].1.map_values(|p: Seq<char>| lower(p))[l] by {
                        assert(glvals[l]@ == lower(ts[k as int].1[l]));
                    }
                    assert(glvals.map_values(|v: String| v@).len() == ts[k as int].1.map_values(
                        |p: Seq<char>| lower(p),
                    ).len());
                }
            }
            k = k + 1;
        }
        Ok(())
    }

    /// Computes the new lines of a `.tags` file after writing one tag
    /// and records the (lowercased) tag in the cached vocabulary.
    pub fn write_tag(&mut self, existing: &Vec<String>, tag_name: &str, tag_values: &Vec<String>)
        -> (r: Result<Vec<String>, RulesError>)
        ensures
            final(self).config_dir_spec() == old(self).config_dir_spec(),
            r is Ok <==> tag_write::tag_write_ok(
                tag_name@,
                tag_values@.map_values(|v: String| v@),
            ),
            r is Err ==> r->Err_0 is TagParseError && final(self).tags_spec() == old(
                self,
            ).tags_spec(),
            r is Ok ==> (r->Ok_0)@.map_values(|s: String| s@) == tag_write::spec_tag_write(
                existing@.map_values(|s: String| s@),
                lower(tag_name@),
                tag_values@.map_values(|v: String| v@),
            ),
            r is Ok ==> ({
                let ts = final(self).tags_spec();
                &&& ts.len() == old(self).tags_spec().len() + 1
                &&& forall|k: int|
                    0 <= k < old(self).tags_spec().len() ==> ts[k] == old(self).tags_spec()[k]
                &&& ts.last().name@ == lower(tag_name@)
                &&& ts.last().values@.map_values(|v: String| v@) == tag_values@.map_values(
                    |v: String| v@,
                ).map_values(|p: Seq<char>| lower(p))
            }),
    {
        let out = match tag_write::write(existing, tag_name, tag_values) {
            Ok(o) => o,
            Err(e) => {
                return Err(e);
            },
        };
        let ghost vs = tag_values@.map_values(|v: String| v@);
        let lname = chars_to_string(&lower_chars(&to_chars(tag_name)));
        let mut lvals: Vec<String> = Vec::new();
        let mut j: usize = 0;
        while j < tag_values.len()
            invariant
                self.config_dir@ == old(self).config_dir@,
                self.tags@ == old(self).tags@,
                vs == tag_values@.map_values(|v: String| v@),
                j <= vs.len(),
                lvals@.len() == j,
                forall|l: int| 0 <= l < j ==> (#[trigger] lvals@[l])@ == lower(vs[l]),
            decreases tag_values@.len() - j,
        {
            proof {
                assert(vs[j as int] == tag_values@[j as int]@);
            }
            lvals.push(chars_to_string(&lower_chars(&to_chars(tag_values[j].as_str()))));
            j = j + 1;
        }
        let ghost glvals = lvals@;
        self.tags.push(Tag { name: lname, values: lvals });
        proof {
            assert(self.tags@.last().values@.map_values(|v: String| v@) =~= vs.map_values(
                |p: Seq<char>| lower(p),
            )) by {
                assert forall|l: int| #![trigger glvals[l]]
                    0 <= l < glvals.len() implies glvals.map_values(|v: String| v@)[l]
                    == vs.map_values(|p: Seq<char>| lower(p))[l] by {
                    assert(glvals[l]@ == lower(vs[l]));
                }
                assert(glvals.map_values(|v: String| v@).len() == vs.map_values(
                    |p: Seq<char>| lower(p),
                ).len());
            }
        }
        Ok(out)
    }

    /// Computes the new lines of a `.rules` file after writing one
    /// rule, validating it against the cached vocabulary and refusing
    /// byte-for-byte duplicates of its trimmed text.
    pub fn write_rule(&self, existing: &Vec<String>, rule: &str) -> (r: Result<
        Vec<String>,
        RulesError,
    >)
        ensures
            r is Err ==> r->Err_0 is RuleParseError,
            r is Ok <==> (rule_ok(self.tags_spec(), rule@) && !rule_write::rule_dup(
                existing@.map_values(|s: String| s@),
                rule@,
            )),
            r is Ok ==> ({
                let lines = existing@.map_values(|s: String| s@);
                &&& !rule_write::rule_dup(lines, rule@)
                &&& (r->Ok_0)@.map_values(|s: String| s@) == lines.push(trim(rule@))
                &&& exists|a: Ast|
                    {
                        &&& #[trigger] ast_wf(a)
                        &&& spec_tokenize(rule@) == seq![GTok::Sym('-')] + ast_tokens(a)
                        &&& ast_valid(self.tags_spec(), a)
                    }
            }),
    {
        rule_write::write(existing, rule, &self.tags)
    }

    /// Computes the new lines of an object file; the object writer is
    /// currently a stub that leaves the content unchanged.
    pub fn write_object(&self, existing: &Vec<String>, obj_type: &str, obj: &Object) -> (r: Result<
        Vec<String>,
        RulesError,
    >)
        ensures
            r is Ok,
            (r->Ok_0)@.map_values(|s: String| s@) == existing@.map_values(|s: String| s@),
    {
        object_write::write(existing, obj_type, obj)
    }

    /// Checks one rule string against the grammar and the cached
    /// vocabulary. On success some well-formed tree matches the
    /// rule's tokens and names only known tags and allowed values.
    pub fn validate_rule(&self, rule: &str) -> (r: Result<(), RulesError>)
        ensures
            r is Ok <==> rule_ok(self.tags_spec(), rule@),
            r is Err ==> r->Err_0 is RuleParseError,
    {
        let ast = match parse_rule(rule) {
            Ok(a) => a,
            Err(e) => {
                return Err(e);
            },
        };
        proof {
            lemma_valid_view(self.tags@, ast);
        }
        match validate_ast(&self.tags, &ast) {
            Ok(()) => Ok(()),
            Err(e) => Err(e),
        }
    }

    /// Compiles the given rule texts against the cached vocabulary and
    /// evaluates every object against all of them in one counter pass
    /// each. Returns, per object, the ascending indices of the rules
    /// it satisfies. Fails when a rule does not parse or validate, or
    /// when an object repeats an attribute name.
    pub fn evaluate(&self, rule_texts: &Vec<String>, objects: &Vec<Object>) -> (r: Result<
        Vec<Vec<usize>>,
        RulesError,
    >)
        ensures
            r is Err ==> (r->Err_0 is RuleParseError || r->Err_0 is TagParseError),
            r is Ok <==> ((forall|i: int|
                0 <= i < rule_texts@.len() ==> rule_ok(
                    self.tags_spec(),
                    (#[trigger] rule_texts@[i])@,
                )) && (forall|o: int|
                0 <= o < objects@.len() ==> obj_wf(obj_view((#[trigger] objects@[o])@)))),
            r is Ok ==> ({
                &&& (r->Ok_0)@.len() == objects@.len()
                &&& exists|css: Seq<Vec<SubRule>>|
                    {
                        &&& #[trigger] css.len() == rule_texts@.len()
                        &&& forall|i: int|
                            0 <= i < css.len() ==> compiled_from(
                                self.tags_spec(),
                                rule_texts@[i]@,
                                (#[trigger] css[i])@,
                            )
                        &&& forall|o: int, i: int|
                            0 <= o < objects@.len() && 0 <= i < css.len() ==> ((
                            #[trigger] (r->Ok_0)@[o]@.contains(i as usize)) <==> dnf_sem(
                                obj_view(objects@[o]@),
                                dnf_view((#[trigger] css[i])@),
                            ))
                    }
                &&& forall|o: int| 0 <= o < objects@.len() ==> obj_wf(obj_view(objects@[o]@))
            }),
    {
        // Compile every rule once.
        let mut compiled: Vec<Vec<SubRule>> = Vec::new();
        let mut i: usize = 0;
        while i < rule_texts.len()
            invariant
                i <= rule_texts@.len(),
                compiled@.len() == i,
                forall|i2: int|
                    0 <= i2 < i ==> compiled_from(
                        self.tags_spec(),
                        rule_texts@[i2]@,
                        (#[trigger] compiled@[i2])@,
                    ) && crate::sem::clauses_wf(compiled@[i2]@),
                forall|i2: int|
                    0 <= i2 < i ==> rule_ok(self.tags_spec(), (#[trigger] rule_texts@[i2])@),
            decreases rule_texts@.len() - i,
        {
            let cs = match compile_rule(&self.tags, rule_texts[i].as_str()) {
                Ok(c) => c,
                Err(e) => {
                    return Err(e);
                },
            };
            compiled.push(cs);
            i = i + 1;
        }
        // Evaluate every object with one pass over its attributes.
        let mut out: Vec<Vec<usize>> = Vec::new();
        let mut o: usize = 0;
        while o < objects.len()
            invariant
                compiled@.len() == rule_texts@.len(),
                forall|i2: int|
                    0 <= i2 < compiled@.len() ==> compiled_from(
                        self.tags_spec(),
                        rule_texts@[i2]@,
                        (#[trigger] compiled@[i2])@,
                    ) && crate::sem::clauses_wf(compiled@[i2]@),
                forall|i2: int|
                    0 <= i2 < rule_texts@.len() ==> rule_ok(
                        self.tags_spec(),
                        (#[trigger] rule_texts@[i2])@,
                    ),
                o <= objects@.len(),
                out@.len() == o,
                forall|o2: int| 0 <= o2 < o ==> obj_wf(obj_view((#[trigger] objects@[o2])@)),
                forall|o2: int, i2: int|
                    0 <= o2 < o && 0 <= i2 < compiled@.len() ==> ((#[trigger] out@[o2]@.contains(
                        i2 as usize,
                    )) <==> dnf_sem(obj_view(objects@[o2]@), dnf_view((#[trigger] compiled@[i2])@))),
            decreases objects@.len() - o,
        {
            let obj = &objects[o];
            if !object_wf_exec(obj) {
                return Err(
                    RulesError::TagParseError(
                        String::from_str("Object attribute names must be unique"),
                    ),
                );
            }
            let row = evaluate_object(&compiled, obj);
            out.push(row);
            o = o + 1;
        }
        proof {
            assert(out@.len() == objects@.len());
        }
        Ok(out)
    }
}

} // verus!
