//! The counter-based evaluator.
//!
//! Given the compiled clauses of many rules and one object, the
//! evaluator makes exactly one pass over the object's attributes; for
//! each attribute it tests every comparison whose tag matches the
//! attribute's name (case-insensitively) and increments the owning
//! clause's counter on success. After the pass a clause is satisfied
//! when its counter reached the clause size, and a rule when some
//! clause of it is satisfied.
//!
//! `evaluate_object` is proved exact: a rule is reported satisfied
//! precisely when its disjunctive normal form holds of the object.

use vstd::prelude::*;
use crate::sem::{
    AttrV,
    CmpV,
    ObjV,
    attr_has_value,
    attr_named,
    ccmp_wf,
    clause_sem,
    clause_view,
    clause_wf,
    clauses_wf,
    cmp_matches_attr,
    cmp_sem,
    cmp_view,
    dnf_sem,
    dnf_view,
    obj_view,
    obj_wf,
};
use crate::strutil::{lower, lower_chars, to_chars};
use crate::types::{Comparison, Object, SubRule};
use crate::vocab::chars_eq;

verus! {

/// The comparison matched some attribute among the first `a`.
pub open spec fn cmp_matched_upto(c: CmpV, obj: ObjV, a: int) -> bool {
    exists|t: int| 0 <= t < a && cmp_matches_attr(c, #[trigger] obj[t])
}

/// How many comparisons of the clause matched among the first `a`
/// attributes: the clause's counter after `a` steps of the pass.
pub open spec fn count_matched(cv: Seq<CmpV>, obj: ObjV, a: int) -> nat
    decreases cv.len(),
{
    if cv.len() == 0 {
        0
    } else {
        count_matched(cv.drop_last(), obj, a) + (if cmp_matched_upto(cv.last(), obj, a) {
            1nat
        } else {
            0nat
        })
    }
}

/// How many comparisons of the clause match one attribute.
pub open spec fn count_attr_hits(cv: Seq<CmpV>, attr: AttrV) -> nat
    decreases cv.len(),
{
    if cv.len() == 0 {
        0
    } else {
        count_attr_hits(cv.drop_last(), attr) + (if cmp_matches_attr(cv.last(), attr) {
            1nat
        } else {
            0nat
        })
    }
}

/// Before the pass no comparison has matched.
proof fn lemma_count_zero(cv: Seq<CmpV>, obj: ObjV)
    ensures
        count_matched(cv, obj, 0) == 0,
    decreases cv.len(),
{
    if cv.len() > 0 {
        lemma_count_zero(cv.drop_last(), obj);
    }
}

/// The counter never exceeds the clause size, and reaches it exactly
/// when every comparison has matched.
proof fn lemma_count_bounds(cv: Seq<CmpV>, obj: ObjV, a: int)
    ensures
        count_matched(cv, obj, a) <= cv.len(),
        (count_matched(cv, obj, a) == cv.len()) <==> (forall|m: int|
            0 <= m < cv.len() ==> cmp_matched_upto(#[trigger] cv[m], obj, a)),
    decreases cv.len(),
{
    if cv.len() > 0 {
        lemma_count_bounds(cv.drop_last(), obj, a);
        if count_matched(cv, obj, a) == cv.len() {
            assert forall|m: int| 0 <= m < cv.len() implies cmp_matched_upto(
                #[trigger] cv[m],
                obj,
                a,
            ) by {
                if m < cv.len() - 1 {
                    assert(cv.drop_last()[m] == cv[m]);
                } else {
                    assert(cv.last() == cv[m]);
                }
            }
        }
        if forall|m: int| 0 <= m < cv.len() ==> cmp_matched_upto(#[trigger] cv[m], obj, a) {
            assert(forall|m: int|
                0 <= m < cv.len() - 1 ==> cmp_matched_upto(#[trigger] cv.drop_last()[m], obj, a));
            assert(cmp_matched_upto(cv.last(), obj, a));
        }
    }
}

/// One step of the pass: matching among the first `a + 1` attributes
/// is matching earlier or matching attribute `a`, and for a
/// well-formed object never both.
proof fn lemma_mu_step(c: CmpV, obj: ObjV, a: int)
    requires
        obj_wf(obj),
        0 <= a < obj.len(),
    ensures
        cmp_matched_upto(c, obj, a + 1) == (cmp_matched_upto(c, obj, a) || cmp_matches_attr(
            c,
            obj[a],
        )),
        !(cmp_matched_upto(c, obj, a) && cmp_matches_attr(c, obj[a])),
{
    if cmp_matched_upto(c, obj, a + 1) {
        let t = choose|t: int| 0 <= t < a + 1 && cmp_matches_attr(c, #[trigger] obj[t]);
        if t < a {
            assert(cmp_matched_upto(c, obj, a));
        }
    }
    if cmp_matched_upto(c, obj, a) && cmp_matches_attr(c, obj[a]) {
        let t = choose|t: int| 0 <= t < a && cmp_matches_attr(c, #[trigger] obj[t]);
        assert(lower(obj[t].0) == lower(c.0));
        assert(lower(obj[a].0) == lower(c.0));
    }
}

/// One step of the pass, for the whole clause: the counter grows by
/// the number of comparisons the new attribute matches.
proof fn lemma_count_step(cv: Seq<CmpV>, obj: ObjV, a: int)
    requires
        obj_wf(obj),
        0 <= a < obj.len(),
    ensures
        count_matched(cv, obj, a + 1) == count_matched(cv, obj, a) + count_attr_hits(cv, obj[a]),
    decreases cv.len(),
{
    if cv.len() > 0 {
        lemma_count_step(cv.drop_last(), obj, a);
        lemma_mu_step(cv.last(), obj, a);
    }
}

/// After the full pass, a reached counter is exactly clause
/// satisfaction.
proof fn lemma_count_final(cv: Seq<CmpV>, obj: ObjV)
    ensures
        (count_matched(cv, obj, obj.len() as int) == cv.len()) <==> clause_sem(obj, cv),
{
    lemma_count_bounds(cv, obj, obj.len() as int);
    assert forall|m: int| 0 <= m < cv.len() implies cmp_matched_upto(
        #[trigger] cv[m],
        obj,
        obj.len() as int,
    ) == cmp_sem(obj, cv[m]) by {}
}

/// The evaluation verdict resolves clause satisfaction exactly: an
/// object that satisfies every comparison of at least one clause
/// satisfies the normal form (and is so reported, since
/// `evaluate_object` reports a rule exactly when `dnf_sem` holds);
/// an object that violates every comparison of every clause does not.
pub proof fn lemma_clause_satisfaction(obj: ObjV, cvs: Seq<Seq<CmpV>>)
    ensures
        (exists|k: int| 0 <= k < cvs.len() && clause_sem(obj, #[trigger] cvs[k])) ==> dnf_sem(
            obj,
            cvs,
        ),
        ((forall|k: int| 0 <= k < cvs.len() ==> (#[trigger] cvs[k]).len() >= 1) && (forall|
            k: int,
            m: int,
        |
            0 <= k < cvs.len() && 0 <= m < cvs[k].len() ==> !cmp_sem(
                obj,
                #[trigger] cvs[k][m],
            ))) ==> !dnf_sem(obj, cvs),
{
    if (forall|k: int| 0 <= k < cvs.len() ==> (#[trigger] cvs[k]).len() >= 1) && (forall|
        k: int,
        m: int,
    |
        0 <= k < cvs.len() && 0 <= m < cvs[k].len() ==> !cmp_sem(obj, #[trigger] cvs[k][m])) {
        if dnf_sem(obj, cvs) {
            let k = choose|k: int| 0 <= k < cvs.len() && clause_sem(obj, #[trigger] cvs[k]);
            assert(cvs[k].len() >= 1);
            assert(cmp_sem(obj, cvs[k][0]));
            assert(!cmp_sem(obj, cvs[k][0]));
        }
    }
}

/// Does some entry of `hay` hold exactly the characters of `needle`?
fn contains_chars(hay: &Vec<Vec<char>>, needle: &Vec<char>) -> (r: bool)
    ensures
        r == exists|j: int| 0 <= j < hay@.len() && (#[trigger] hay@[j])@ == needle@,
{
    let mut j: usize = 0;
    while j < hay.len()
        invariant
            j <= hay@.len(),
            forall|l: int| 0 <= l < j ==> (#[trigger] hay@[l])@ != needle@,
        decreases hay@.len() - j,
    {
        if chars_eq(&hay[j], needle) {
            return true;
        }
        j = j + 1;
    }
    false
}

/// Counts, for one clause and one attribute of the pass, the
/// comparisons whose tag names the attribute and whose operator test
/// passes.
fn attr_hits(
    comps: &Vec<Comparison>,
    lname: &Vec<char>,
    lvals: &Vec<Vec<char>>,
    Ghost(attr): Ghost<AttrV>,
) -> (d: usize)
    requires
        forall|k: int| 0 <= k < comps@.len() ==> ccmp_wf(#[trigger] comps@[k]),
        lname@ == lower(attr.0),
        lvals@.map_values(|v: Vec<char>| v@) == attr.1.map_values(|s: Seq<char>| lower(s)),
    ensures
        d <= comps@.len(),
        d == count_attr_hits(comps@.map_values(|c: Comparison| cmp_view(c)), attr),
{
    let ghost cv = comps@.map_values(|c: Comparison| cmp_view(c));
    let mut d: usize = 0;
    let mut m: usize = 0;
    while m < comps.len()
        invariant
            forall|k: int| 0 <= k < comps@.len() ==> ccmp_wf(#[trigger] comps@[k]),
            lname@ == lower(attr.0),
            lvals@.map_values(|v: Vec<char>| v@) == attr.1.map_values(|s: Seq<char>| lower(s)),
            cv == comps@.map_values(|c: Comparison| cmp_view(c)),
            m <= comps@.len(),
            d <= m,
            d == count_attr_hits(cv.take(m as int), attr),
        decreases comps@.len() - m,
    {
        let cref = &comps[m];
        let lt = lower_chars(&to_chars(cref.tag.as_str()));
        let mut hit = false;
        if chars_eq(&lt, lname) {
            let lv = lower_chars(&to_chars(cref.values[0].as_str()));
            let present = contains_chars(lvals, &lv);
            proof {
                assert(lvals@.len() == attr.1.len()) by {
                    assert(lvals@.map_values(|v: Vec<char>| v@).len() == lvals@.len());
                }
                assert(present == attr_has_value(attr, cref.values@[0]@)) by {
                    if present {
                        let j = choose|j: int|
                            0 <= j < lvals@.len() && (#[trigger] lvals@[j])@ == lv@;
                        assert(lvals@.map_values(|v: Vec<char>| v@)[j] == lvals@[j]@);
                        assert(attr.1.map_values(|s: Seq<char>| lower(s))[j] == lower(attr.1[j]));
                        assert(lower(attr.1[j]) == lower(cref.values@[0]@));
                    }
                    if attr_has_value(attr, cref.values@[0]@) {
                        let j = choose|j: int|
                            0 <= j < attr.1.len() && lower(#[trigger] attr.1[j]) == lower(
                                cref.values@[0]@,
                            );
                        assert(lvals@.map_values(|v: Vec<char>| v@)[j] == lvals@[j]@);
                        assert(attr.1.map_values(|s: Seq<char>| lower(s))[j] == lower(attr.1[j]));
                        assert(lvals@[j]@ == lv@);
                    }
                }
            }
            hit = match cref.op {
                crate::types::ComparisonOp::ISEQ => present,
                crate::types::ComparisonOp::NOEQ => !present,
            };
        }
        proof {
            assert(cv[m as int] == cmp_view(comps@[m as int]));
            assert(hit == cmp_matches_attr(cv[m as int], attr)) by {
                assert(attr_named(attr, cref.tag@) == (lower(attr.0) == lower(cref.tag@)));
            }
            assert(cv.take(m as int + 1).drop_last() =~= cv.take(m as int));
            assert(cv.take(m as int + 1).last() == cv[m as int]);
        }
        if hit {
            d = d + 1;
        }
        m = m + 1;
    }
    proof {
        assert(cv.take(comps@.len() as int) =~= cv);
    }
    d
}

/// Checks that no two attributes of the object share a lowercased
/// name, i.e. that the attribute list encodes a mapping.
pub fn object_wf_exec(obj: &Object) -> (r: bool)
    ensures
        r == obj_wf(obj_view(obj@)),
{
    let ghost gobj = obj_view(obj@);
    let mut lnames: Vec<Vec<char>> = Vec::new();
    let mut i: usize = 0;
    while i < obj.len()
        invariant
            gobj == obj_view(obj@),
            i <= obj@.len(),
            gobj.len() == obj@.len(),
            lnames@.len() == i,
            forall|k: int| 0 <= k < i ==> (#[trigger] lnames@[k])@ == lower(gobj[k].0),
            forall|k: int, l: int| 0 <= k < l < i ==> lower(gobj[k].0) != lower(gobj[l].0),
        decreases obj@.len() - i,
    {
        let attr = &obj[i];
        proof {
            assert(gobj[i as int] == (attr.0@, attr.1@.map_values(|v: String| v@)));
        }
        let ln = lower_chars(&to_chars(attr.0.as_str()));
        let mut k: usize = 0;
        while k < lnames.len()
            invariant
                gobj == obj_view(obj@),
                i < gobj.len(),
                ln@ == lower(gobj[i as int].0),
                lnames@.len() == i,
                k <= i,
                forall|k2: int| 0 <= k2 < i ==> (#[trigger] lnames@[k2])@ == lower(gobj[k2].0),
                forall|k2: int| 0 <= k2 < k ==> lower(gobj[k2].0) != lower(gobj[i as int].0),
            decreases lnames@.len() - k,
        {
            if chars_eq(&lnames[k], &ln) {
                proof {
                    assert(lower(gobj[k as int].0) == lower(gobj[i as int].0));
                }
                return false;
            }
            k = k + 1;
        }
        lnames.push(ln);
        i = i + 1;
    }
    proof {
        assert(obj_wf(gobj));
    }
    true
}

/// Evaluates many compiled rules against one object in a single
/// counter pass. Returns the indices of the satisfied rules, in
/// ascending order: exactly those whose normal form holds of the
/// object.
pub fn evaluate_object(rules: &Vec<Vec<SubRule>>, obj: &Object) -> (r: Vec<usize>)
    requires
        forall|i: int| 0 <= i < rules@.len() ==> clauses_wf((#[trigger] rules@[i])@),
        obj_wf(obj_view(obj@)),
    ensures
        forall|p: int| 0 <= p < r@.len() ==> (#[trigger] r@[p]) < rules@.len(),
        forall|p: int, q: int| 0 <= p < q < r@.len() ==> r@[p] < r@[q],
        forall|i: int|
            0 <= i < rules@.len() ==> (r@.contains(i as usize) <==> dnf_sem(
                obj_view(obj@),
                dnf_view(#[trigger] rules@[i]@),
            )),
{
    let ghost gobj = obj_view(obj@);
    // Reset every clause counter.
    let mut counts: Vec<Vec<usize>> = Vec::new();
    let mut i: usize = 0;
    while i < rules.len()
        invariant
            forall|i2: int| 0 <= i2 < rules@.len() ==> clauses_wf((#[trigger] rules@[i2])@),
            gobj == obj_view(obj@),
            i <= rules@.len(),
            counts@.len() == i,
            forall|i2: int| 0 <= i2 < i ==> (#[trigger] counts@[i2])@.len() == rules@[i2]@.len(),
            forall|i2: int, k: int|
                0 <= i2 < i && 0 <= k < rules@[i2]@.len() ==> (#[trigger] counts@[i2]@[k])
                    == count_matched(clause_view(rules@[i2]@[k]), gobj, 0),
        decreases rules@.len() - i,
    {
        let rl = &rules[i];
        let mut row: Vec<usize> = Vec::new();
        let mut k: usize = 0;
        while k < rl.len()
            invariant
                gobj == obj_view(obj@),
                rl@ == rules@[i as int]@,
                i < rules@.len(),
                k <= rl@.len(),
                row@.len() == k,
                forall|k2: int|
                    0 <= k2 < k ==> (#[trigger] row@[k2]) == count_matched(
                        clause_view(rl@[k2]),
                        gobj,
                        0,
                    ),
            decreases rl@.len() - k,
        {
            row.push(0);
            proof {
                lemma_count_zero(clause_view(rl@[k as int]), gobj);
            }
            k = k + 1;
        }
        counts.push(row);
        i = i + 1;
    }
    // One pass over the object's attributes.
    let mut a: usize = 0;
    while a < obj.len()
        invariant
            forall|i2: int| 0 <= i2 < rules@.len() ==> clauses_wf((#[trigger] rules@[i2])@),
            gobj == obj_view(obj@),
            obj_wf(gobj),
            a <= obj@.len(),
            gobj.len() == obj@.len(),
            counts@.len() == rules@.len(),
            forall|i2: int|
                0 <= i2 < rules@.len() ==> (#[trigger] counts@[i2])@.len() == rules@[i2]@.len(),
            forall|i2: int, k: int|
                0 <= i2 < rules@.len() && 0 <= k < rules@[i2]@.len() ==> (
                #[trigger] counts@[i2]@[k]) == count_matched(
                    clause_view(rules@[i2]@[k]),
                    gobj,
                    a as int,
                ),
        decreases obj@.len() - a,
    {
        let attr = &obj[a];
        let ghost gattr = gobj[a as int];
        proof {
            assert(gobj[a as int] == (attr.0@, attr.1@.map_values(|v: String| v@)));
        }
        let lname = lower_chars(&to_chars(attr.0.as_str()));
        let mut lvals: Vec<Vec<char>> = Vec::new();
        let mut v: usize = 0;
        while v < attr.1.len()
            invariant
                gattr == (attr.0@, attr.1@.map_values(|x: String| x@)),
                v <= attr.1@.len(),
                lvals@.len() == v,
                forall|l: int|
                    0 <= l < v ==> (#[trigger] lvals@[l])@ == lower(attr.1@[l]@),
            decreases attr.1@.len() - v,
        {
            lvals.push(lower_chars(&to_chars(attr.1[v].as_str())));
            v = v + 1;
        }
        proof {
            assert(lvals@.map_values(|x: Vec<char>| x@) =~= gattr.1.map_values(
                |s: Seq<char>| lower(s),
            )) by {
                assert forall|l: int| #![trigger lvals@[l]]
                    0 <= l < lvals@.len() implies lvals@.map_values(|x: Vec<char>| x@)[l]
                    == gattr.1.map_values(|s: Seq<char>| lower(s))[l] by {
                    assert((#[trigger] lvals@[l])@ == lower(attr.1@[l]@));
                    assert(gattr.1[l] == attr.1@[l]@);
                }
            }
            assert(lname@ == lower(gattr.0));
        }
        let mut newcounts: Vec<Vec<usize>> = Vec::new();
        let mut i2: usize = 0;
        while i2 < rules.len()
            invariant
                forall|i3: int| 0 <= i3 < rules@.len() ==> clauses_wf((#[trigger] rules@[i3])@),
                gobj == obj_view(obj@),
                obj_wf(gobj),
                a < obj@.len(),
                gobj.len() == obj@.len(),
                gattr == gobj[a as int],
                lname@ == lower(gattr.0),
                lvals@.map_values(|x: Vec<char>| x@) == gattr.1.map_values(
                    |s: Seq<char>| lower(s),
                ),
                counts@.len() == rules@.len(),
                forall|i3: int|
                    0 <= i3 < rules@.len() ==> (#[trigger] counts@[i3])@.len()
                        == rules@[i3]@.len(),
                forall|i3: int, k: int|
                    0 <= i3 < rules@.len() && 0 <= k < rules@[i3]@.len() ==> (
                    #[trigger] counts@[i3]@[k]) == count_matched(
                        clause_view(rules@[i3]@[k]),
                        gobj,
                        a as int,
                    ),
                i2 <= rules@.len(),
                newcounts@.len() == i2,
                forall|i3: int|
                    0 <= i3 < i2 ==> (#[trigger] newcounts@[i3])@.len() == rules@[i3]@.len(),
                forall|i3: int, k: int|
                    0 <= i3 < i2 && 0 <= k < rules@[i3]@.len() ==> (
                    #[trigger] newcounts@[i3]@[k]) == count_matched(
                        clause_view(rules@[i3]@[k]),
                        gobj,
                        a as int + 1,
                    ),
            decreases rules@.len() - i2,
        {
            let rl = &rules[i2];
            let crow = &counts[i2];
            let mut nrow: Vec<usize> = Vec::new();
            let mut k: usize = 0;
            while k < rl.len()
                invariant
                    obj_wf(gobj),
                    a < gobj.len(),
                    gattr == gobj[a as int],
                    lname@ == lower(gattr.0),
                    lvals@.map_values(|x: Vec<char>| x@) == gattr.1.map_values(
                        |s: Seq<char>| lower(s),
                    ),
                    rl@ == rules@[i2 as int]@,
                    i2 < rules@.len(),
                    clauses_wf(rl@),
                    crow@ == counts@[i2 as int]@,
                    crow@.len() == rl@.len(),
                    forall|k2: int|
                        0 <= k2 < rl@.len() ==> (#[trigger] crow@[k2]) == count_matched(
                            clause_view(rl@[k2]),
                            gobj,
                            a as int,
                        ),
                    k <= rl@.len(),
                    nrow@.len() == k,
                    forall|k2: int|
                        0 <= k2 < k ==> (#[trigger] nrow@[k2]) == count_matched(
                            clause_view(rl@[k2]),
                            gobj,
                            a as int + 1,
                        ),
                decreases rl@.len() - k,
            {
                let sr = &rl[k];
                proof {
                    assert(clause_wf(rl@[k as int]));
                }
                let d = attr_hits(&sr.comparisons, &lname, &lvals, Ghost(gattr));
                proof {
                    lemma_count_step(clause_view(rl@[k as int]), gobj, a as int);
                    lemma_count_bounds(clause_view(rl@[k as int]), gobj, a as int + 1);
                    assert(clause_view(rl@[k as int]).len() == sr.comparisons@.len());
                }
                let base = crow[k];
                nrow.push(base + d);
                k = k + 1;
            }
            newcounts.push(nrow);
            i2 = i2 + 1;
        }
        counts = newcounts;
        a = a + 1;
    }
    // Resolve satisfaction from the final counter state.
    let mut result: Vec<usize> = Vec::new();
    let mut i4: usize = 0;
    while i4 < rules.len()
        invariant
            forall|i3: int| 0 <= i3 < rules@.len() ==> clauses_wf((#[trigger] rules@[i3])@),
            gobj == obj_view(obj@),
            gobj.len() == obj@.len(),
            counts@.len() == rules@.len(),
            forall|i3: int|
                0 <= i3 < rules@.len() ==> (#[trigger] counts@[i3])@.len() == rules@[i3]@.len(),
            forall|i3: int, k: int|
                0 <= i3 < rules@.len() && 0 <= k < rules@[i3]@.len() ==> (
                #[trigger] counts@[i3]@[k]) == count_matched(
                    clause_view(rules@[i3]@[k]),
                    gobj,
                    gobj.len() as int,
                ),
            i4 <= rules@.len(),
            forall|p: int| 0 <= p < result@.len() ==> (#[trigger] result@[p]) < i4,
            forall|p: int, q: int| 0 <= p < q < result@.len() ==> result@[p] < result@[q],
            forall|i3: int|
                0 <= i3 < i4 ==> (result@.contains(i3 as usize) <==> dnf_sem(
                    gobj,
                    dnf_view(#[trigger] rules@[i3]@),
                )),
        decreases rules@.len() - i4,
    {
        let rl = &rules[i4];
        let crow = &counts[i4];
        let mut sat = false;
        let mut k: usize = 0;
        while k < rl.len()
            invariant
                gobj == obj_view(obj@),
                gobj.len() == obj@.len(),
                rl@ == rules@[i4 as int]@,
                i4 < rules@.len(),
                clauses_wf(rl@),
                crow@ == counts@[i4 as int]@,
                crow@.len() == rl@.len(),
                forall|k2: int|
                    0 <= k2 < rl@.len() ==> (#[trigger] crow@[k2]) == count_matched(
                        clause_view(rl@[k2]),
                        gobj,
                        gobj.len() as int,
                    ),
                k <= rl@.len(),
                sat == exists|k2: int|
                    0 <= k2 < k && clause_sem(gobj, clause_view(#[trigger] rl@[k2])),
            decreases rl@.len() - k,
        {
            let sr = &rl[k];
            proof {
                assert(clause_wf(rl@[k as int]));
                lemma_count_final(clause_view(rl@[k as int]), gobj);
                assert(clause_view(rl@[k as int]).len() == sr.comparisons@.len());
            }
            if crow[k] == sr.expected_count {
                proof {
                    assert(clause_sem(gobj, clause_view(rl@[k as int])));
                }
                sat = true;
            }
            k = k + 1;
        }
        proof {
            assert(sat == dnf_sem(gobj, dnf_view(rl@))) by {
                if sat {
                    let k2 = choose|k2: int|
                        0 <= k2 < rl@.len() && clause_sem(gobj, clause_view(#[trigger] rl@[k2]));
                    assert(dnf_view(rl@)[k2] == clause_view(rl@[k2]));
                    assert(dnf_sem(gobj, dnf_view(rl@)));
                }
                if dnf_sem(gobj, dnf_view(rl@)) {
                    let k2 = choose|k2: int|
                        0 <= k2 < dnf_view(rl@).len() && clause_sem(
                            gobj,
                            #[trigger] dnf_view(rl@)[k2],
                        );
                    assert(dnf_view(rl@)[k2] == clause_view(rl@[k2]));
                }
            }
        }
        let ghost before = result@;
        if sat {
            result.push(i4);
        }
        proof {
            assert forall|i3: int|
                0 <= i3 < i4 + 1 implies (result@.contains(i3 as usize) <==> dnf_sem(
                gobj,
                dnf_view(#[trigger] rules@[i3]@),
            )) by {
                if i3 < i4 {
                    assert(before.contains(i3 as usize) <==> dnf_sem(gobj, dnf_view(rules@[i3]@)));
                    if before.contains(i3 as usize) {
                        let p = choose|p: int|
                            0 <= p < before.len() && before[p] == i3 as usize;
                        assert(result@[p] == i3 as usize);
                        assert(result@.contains(i3 as usize));
                    }
                    if result@.contains(i3 as usize) && !before.contains(i3 as usize) {
                        let p = choose|p: int|
                            0 <= p < result@.len() && result@[p] == i3 as usize;
                        assert(p == result@.len() - 1 && sat);
                        assert(result@[p] == i4 as usize);
                    }
                } else {
                    if sat {
                        assert(result@[result@.len() - 1] == i4 as usize);
                        assert(result@.contains(i4 as usize));
                    } else {
                        if result@.contains(i4 as usize) {
                            let p = choose|p: int|
                                0 <= p < result@.len() && result@[p] == i4 as usize;
                            assert(result@[p] < i4);
                        }
                    }
                }
            }
        }
        i4 = i4 + 1;
    }
    result
}

} // verus!
