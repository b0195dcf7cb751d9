//! Batch entry point: load, compile, and match many objects at once.

use vstd::prelude::*;
use crate::error::RulesError;
use crate::orchestrator::{
    Orchestrator,
    compiled_rules,
    loaded_tags,
    rules_all_ok,
    src_loaded_tags,
};
use crate::sem::{dnf_sem, dnf_view, obj_view, obj_wf};
use crate::tags::sources_ok;
use crate::types::{Object, SubRule, Tag};

verus! {

/// Loads the vocabulary from the tag sources, compiles every rule of
/// the rule sources, and evaluates each object against all of them.
/// Returns one row per object: the ascending indices of the rules it
/// satisfies.
pub fn evaluate(
    tag_sources: &Vec<String>,
    rule_sources: &Vec<String>,
    objects: &Vec<Object>,
) -> (r: Result<Vec<Vec<usize>>, RulesError>)
    ensures
        r is Err ==> (r->Err_0 is RuleParseError || r->Err_0 is TagParseError),
        r is Ok ==> ({
            &&& (r->Ok_0)@.len() == objects@.len()
            &&& sources_ok(tag_sources@.map_values(|s: String| s@))
            &&& exists|tags: Seq<Tag>, css: Seq<Vec<SubRule>>|
                #![trigger tags.len(), css.len()]
                {
                    &&& loaded_tags(tag_sources@.map_values(|s: String| s@), tags)
                    &&& compiled_rules(rule_sources@.map_values(|s: String| s@), tags, css)
                    &&& rules_all_ok(tags, rule_sources@)
                    &&& forall|o: int, i: int|
                        0 <= o < objects@.len() && 0 <= i < css.len() ==> ((
                        #[trigger] (r->Ok_0)@[o]@.contains(i as usize)) <==> dnf_sem(
                            obj_view(objects@[o]@),
                            dnf_view((#[trigger] css[i])@),
                        ))
                }
            &&& forall|o: int| 0 <= o < objects@.len() ==> obj_wf(obj_view((#[trigger] objects@[o])@))
        }),
        r is Err ==> !sources_ok(tag_sources@.map_values(|s: String| s@)) || (exists|
            ts: Seq<Tag>,
        |
            #[trigger] src_loaded_tags(tag_sources@, ts) && !rules_all_ok(ts, rule_sources@))
            || (exists|o: int|
            0 <= o < objects@.len() && !obj_wf(obj_view((#[trigger] objects@[o])@))),
{
    let orch = match Orchestrator::run(tag_sources, rule_sources) {
        Ok(o) => o,
        Err(e) => {
            return Err(e);
        },
    };
    let mut out: Vec<Vec<usize>> = Vec::new();
    let mut o: usize = 0;
    while o < objects.len()
        invariant
            sources_ok(tag_sources@.map_values(|s: String| s@)),
            rules_all_ok(orch.tags_spec(), rule_sources@),
            loaded_tags(tag_sources@.map_values(|s: String| s@), orch.tags_spec()),
            compiled_rules(
                rule_sources@.map_values(|s: String| s@),
                orch.tags_spec(),
                orch.subrules_spec(),
            ),
            o <= objects@.len(),
            out@.len() == o,
            forall|o2: int| 0 <= o2 < o ==> obj_wf(obj_view((#[trigger] objects@[o2])@)),
            forall|o2: int, i: int|
                0 <= o2 < o && 0 <= i < orch.subrules_spec().len() ==> ((
                #[trigger] out@[o2]@.contains(i as usize)) <==> dnf_sem(
                    obj_view(objects@[o2]@),
                    dnf_view((#[trigger] orch.subrules_spec()[i])@),
                )),
        decreases objects@.len() - o,
    {
        proof {
            assert forall|i: int|
                0 <= i < orch.subrules_spec().len() implies crate::sem::clauses_wf(
                (#[trigger] orch.subrules_spec()[i])@,
            ) by {
                let rl = crate::orchestrator::rule_lines(
                    rule_sources@.map_values(|s: String| s@),
                );
                assert(crate::validate::compiled_from(
                    orch.tags_spec(),
                    rl[i],
                    orch.subrules_spec()[i]@,
                ) && crate::sem::clauses_wf(orch.subrules_spec()[i]@));
            }
        }
        let row = match orch.evaluate_one(&objects[o]) {
            Ok(row) => row,
            Err(e) => {
                proof {
                    assert(!obj_wf(obj_view(objects@[o as int]@)));
                }
                return Err(e);
            },
        };
        out.push(row);
        o = o + 1;
    }
    Ok(out)
}

} // verus!
