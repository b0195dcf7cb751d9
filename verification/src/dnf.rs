//! The DNF normalizer: compiles a validated syntax tree into a set of
//! conjunctive clauses.
//!
//! Standard De Morgan rewriting: negating a comparison flips its
//! operator, negating an `And` yields an `Or` of negated children and
//! vice versa, a `Group` is transparent. The leading rule marker is
//! not a negation; only `-( ... )` groups negate. A comma list under
//! `=` spreads over clauses (it is an OR); under a negation it lands
//! in one clause (all of its values must fail).
//!
//! `normalize` is proved semantics-preserving: for every well-formed
//! object that names each tag the rule mentions, the clause set is
//! satisfied exactly when the tree is.

use vstd::prelude::*;
use crate::sem::{
    ObjV,
    ast_covered,
    ast_sem,
    clause_sem,
    clause_view,
    clause_wf,
    clauses_wf,
    cmp_sem,
    cmp_view,
    ccmp_wf,
    dnf_sem,
    dnf_view,
    flip_op,
    flip_op_exec,
    leaf_sem,
    lemma_clause_sem_concat,
    lemma_dnf_sem_concat,
    lemma_flip_op,
    obj_has_tag,
    obj_wf,
};
use crate::parser::{GAst, ast_view, ast_wf, cmp_wf};
use crate::sem::CmpV;
use crate::types::{Ast, Comparison, ComparisonOp, SubRule};

verus! {

/// One row of the reference cross product: the shared clause joined
/// with each clause of `b`.
pub open spec fn g_row(c: Seq<CmpV>, b: Seq<Seq<CmpV>>) -> Seq<Seq<CmpV>> {
    Seq::new(b.len(), |j: int| c + b[j])
}

/// The reference cross product of two clause sets, row by row.
pub open spec fn g_cross(a: Seq<Seq<CmpV>>, b: Seq<Seq<CmpV>>) -> Seq<Seq<CmpV>>
    decreases a.len(),
{
    if a.len() == 0 {
        Seq::empty()
    } else {
        g_row(a[0], b) + g_cross(a.drop_first(), b)
    }
}

/// The reference normal form of a tree (negated when `neg` holds):
/// the clause set `normalize` is proved to return, clause for clause
/// and comparison for comparison.
pub open spec fn g_norm(g: GAst, neg: bool) -> Seq<Seq<CmpV>>
    decreases g,
{
    match g {
        GAst::Cmp(tag, op, vs) => if !neg {
            Seq::new(vs.len(), |j: int| seq![(tag, op, vs[j])])
        } else {
            seq![Seq::new(vs.len(), |j: int| (tag, flip_op(op), vs[j]))]
        },
        GAst::And(l, r) => if !neg {
            g_cross(g_norm(*l, neg), g_norm(*r, neg))
        } else {
            g_norm(*l, neg) + g_norm(*r, neg)
        },
        GAst::Or(l, r) => if !neg {
            g_norm(*l, neg) + g_norm(*r, neg)
        } else {
            g_cross(g_norm(*l, neg), g_norm(*r, neg))
        },
        GAst::Group(i) => g_norm(*i, neg),
        GAst::Negate(i) => g_norm(*i, !neg),
    }
}

/// Builds a single-valued comparison.
fn single(tag: &String, op: ComparisonOp, value: &String) -> (r: Comparison)
    ensures
        ccmp_wf(r),
        cmp_view(r) == (tag@, op, value@),
{
    let mut values: Vec<String> = Vec::new();
    values.push(value.clone());
    Comparison { tag: tag.clone(), op, values }
}

/// Copies a single-valued comparison.
fn clone_cmp(c: &Comparison) -> (r: Comparison)
    requires
        ccmp_wf(*c),
    ensures
        ccmp_wf(r),
        cmp_view(r) == cmp_view(*c),
{
    let mut values: Vec<String> = Vec::new();
    values.push(c.values[0].clone());
    Comparison { tag: c.tag.clone(), op: c.op, values }
}

/// Joins two clauses into one that demands both.
fn concat_clause(a: &SubRule, b: &SubRule) -> (r: SubRule)
    requires
        clause_wf(*a),
        clause_wf(*b),
    ensures
        clause_wf(r),
        clause_view(r) == clause_view(*a) + clause_view(*b),
{
    let mut comps: Vec<Comparison> = Vec::new();
    let mut i: usize = 0;
    while i < a.comparisons.len()
        invariant
            clause_wf(*a),
            i <= a.comparisons@.len(),
            comps@.map_values(|c: Comparison| cmp_view(c)) == clause_view(*a).take(i as int),
            forall|k: int| 0 <= k < comps@.len() ==> ccmp_wf(#[trigger] comps@[k]),
        decreases a.comparisons@.len() - i,
    {
        let ghost before = comps@;
        comps.push(clone_cmp(&a.comparisons[i]));
        proof {
            assert(comps@.map_values(|c: Comparison| cmp_view(c)) =~= before.map_values(
                |c: Comparison| cmp_view(c),
            ).push(cmp_view(a.comparisons@[i as int])));
            assert(clause_view(*a).take(i as int + 1) =~= clause_view(*a).take(i as int).push(
                cmp_view(a.comparisons@[i as int]),
            ));
        }
        i = i + 1;
    }
    proof {
        assert(clause_view(*a).take(a.comparisons@.len() as int) =~= clause_view(*a));
    }
    let mut j: usize = 0;
    while j < b.comparisons.len()
        invariant
            clause_wf(*b),
            j <= b.comparisons@.len(),
            comps@.map_values(|c: Comparison| cmp_view(c)) == clause_view(*a) + clause_view(
                *b,
            ).take(j as int),
            forall|k: int| 0 <= k < comps@.len() ==> ccmp_wf(#[trigger] comps@[k]),
        decreases b.comparisons@.len() - j,
    {
        let ghost before = comps@;
        comps.push(clone_cmp(&b.comparisons[j]));
        proof {
            assert(comps@.map_values(|c: Comparison| cmp_view(c)) =~= before.map_values(
                |c: Comparison| cmp_view(c),
            ).push(cmp_view(b.comparisons@[j as int])));
            assert(clause_view(*a) + clause_view(*b).take(j as int + 1) =~= (clause_view(*a)
                + clause_view(*b).take(j as int)).push(cmp_view(b.comparisons@[j as int])));
        }
        j = j + 1;
    }
    proof {
        assert(clause_view(*a) + clause_view(*b).take(b.comparisons@.len() as int) =~= clause_view(
            *a,
        ) + clause_view(*b));
    }
    let n = comps.len();
    let r = SubRule { expected_count: n, actual_count: 0, comparisons: comps };
    proof {
        assert(clause_view(r) =~= clause_view(*a) + clause_view(*b));
    }
    r
}

/// One row of the cross product: the first clause joined with each
/// clause of `b`.
fn cross_row(ca: &SubRule, b: &Vec<SubRule>) -> (r: Vec<SubRule>)
    requires
        clause_wf(*ca),
        clauses_wf(b@),
    ensures
        clauses_wf(r@),
        r@.len() == b@.len(),
        forall|j: int|
            0 <= j < b@.len() ==> clause_view(#[trigger] r@[j]) == clause_view(*ca) + clause_view(
                b@[j],
            ),
        dnf_view(r@) == g_row(clause_view(*ca), dnf_view(b@)),
{
    let mut out: Vec<SubRule> = Vec::new();
    let mut j: usize = 0;
    while j < b.len()
        invariant
            clause_wf(*ca),
            clauses_wf(b@),
            clauses_wf(out@),
            j <= b@.len(),
            out@.len() == j,
            forall|j2: int|
                0 <= j2 < j ==> clause_view(#[trigger] out@[j2]) == clause_view(*ca) + clause_view(
                    b@[j2],
                ),
        decreases b@.len() - j,
    {
        out.push(concat_clause(ca, &b[j]));
        j = j + 1;
    }
    proof {
        assert(dnf_view(out@) =~= g_row(clause_view(*ca), dnf_view(b@))) by {
            assert forall|j2: int| 0 <= j2 < b@.len() implies dnf_view(out@)[j2] == g_row(
                clause_view(*ca),
                dnf_view(b@),
            )[j2] by {
                assert(dnf_view(out@)[j2] == clause_view(out@[j2]));
                assert(dnf_view(b@)[j2] == clause_view(b@[j2]));
            }
        }
    }
    out
}

/// A row's disjunction: the shared clause conjoined with `b`'s
/// disjunction.
proof fn lemma_row_sem(obj: ObjV, ca: SubRule, b: Seq<SubRule>, r: Seq<SubRule>)
    requires
        r.len() == b.len(),
        forall|j: int|
            0 <= j < b.len() ==> clause_view(#[trigger] r[j]) == clause_view(ca) + clause_view(
                b[j],
            ),
    ensures
        dnf_sem(obj, dnf_view(r)) == (clause_sem(obj, clause_view(ca)) && dnf_sem(
            obj,
            dnf_view(b),
        )),
{
    if dnf_sem(obj, dnf_view(r)) {
        let k = choose|k: int|
            0 <= k < dnf_view(r).len() && clause_sem(obj, #[trigger] dnf_view(r)[k]);
        assert(dnf_view(r)[k] == clause_view(r[k]));
        lemma_clause_sem_concat(obj, clause_view(ca), clause_view(b[k]));
        assert(clause_sem(obj, dnf_view(b)[k]));
        assert(dnf_sem(obj, dnf_view(b)));
    }
    if clause_sem(obj, clause_view(ca)) && dnf_sem(obj, dnf_view(b)) {
        let j = choose|j: int|
            0 <= j < dnf_view(b).len() && clause_sem(obj, #[trigger] dnf_view(b)[j]);
        assert(dnf_view(b)[j] == clause_view(b[j]));
        lemma_clause_sem_concat(obj, clause_view(ca), clause_view(b[j]));
        assert(clause_sem(obj, dnf_view(r)[j]));
        assert(dnf_sem(obj, dnf_view(r)));
    }
}

/// The tail of a normal form, viewed.
proof fn lemma_dnf_view_skip(a: Seq<SubRule>, i: int)
    requires
        0 <= i < a.len(),
    ensures
        dnf_view(a.skip(i)) == seq![clause_view(a[i])] + dnf_view(a.skip(i + 1)),
{
    assert(dnf_view(a.skip(i)) =~= seq![clause_view(a[i])] + dnf_view(a.skip(i + 1))) by {
        assert forall|k: int| 0 <= k < a.len() - i implies dnf_view(a.skip(i))[k] == (seq![
            clause_view(a[i]),
        ] + dnf_view(a.skip(i + 1)))[k] by {
            assert(dnf_view(a.skip(i))[k] == clause_view(a.skip(i)[k]));
            assert(a.skip(i)[k] == a[i + k]);
            if k > 0 {
                assert(dnf_view(a.skip(i + 1))[k - 1] == clause_view(a.skip(i + 1)[k - 1]));
                assert(a.skip(i + 1)[k - 1] == a[i + k]);
            }
        }
    }
}

/// The rows of the cross product from row `i` on.
fn cross_from(a: &Vec<SubRule>, b: &Vec<SubRule>, i: usize) -> (r: Vec<SubRule>)
    requires
        clauses_wf(a@),
        clauses_wf(b@),
        i <= a@.len(),
    ensures
        clauses_wf(r@),
        dnf_view(r@) == g_cross(dnf_view(a@).skip(i as int), dnf_view(b@)),
        forall|obj: ObjV|
            #![trigger dnf_sem(obj, dnf_view(r@))]
            dnf_sem(obj, dnf_view(r@)) == (dnf_sem(obj, dnf_view(a@.skip(i as int))) && dnf_sem(
                obj,
                dnf_view(b@),
            )),
    decreases a@.len() - i,
{
    if i == a.len() {
        let out: Vec<SubRule> = Vec::new();
        proof {
            assert(a@.skip(i as int) =~= Seq::<SubRule>::empty());
            assert(dnf_view(a@).skip(i as int) =~= Seq::<Seq<CmpV>>::empty());
            assert(dnf_view(out@) =~= g_cross(dnf_view(a@).skip(i as int), dnf_view(b@)));
            assert forall|obj: ObjV|
                #![trigger dnf_sem(obj, dnf_view(out@))]
                dnf_sem(obj, dnf_view(out@)) == (dnf_sem(obj, dnf_view(a@.skip(i as int)))
                    && dnf_sem(obj, dnf_view(b@))) by {
                assert(dnf_view(out@).len() == 0);
                assert(dnf_view(a@.skip(i as int)).len() == 0);
            }
        }
        out
    } else {
        let row = cross_row(&a[i], b);
        let ghost grow = row@;
        let rest = cross_from(a, b, i + 1);
        let ghost grest = rest@;
        let out = union_clauses(row, rest);
        proof {
            assert(dnf_view(out@) =~= dnf_view(grow) + dnf_view(grest));
            assert(dnf_view(out@) == g_cross(dnf_view(a@).skip(i as int), dnf_view(b@))) by {
                let av = dnf_view(a@);
                assert(av.skip(i as int).len() > 0);
                assert(av.skip(i as int)[0] == clause_view(a@[i as int]));
                assert(av.skip(i as int).drop_first() =~= av.skip(i as int + 1));
                assert(g_cross(av.skip(i as int), dnf_view(b@)) == g_row(
                    clause_view(a@[i as int]),
                    dnf_view(b@),
                ) + g_cross(av.skip(i as int + 1), dnf_view(b@)));
            }
            assert(clauses_wf(out@)) by {
                assert(forall|k: int| 0 <= k < grow.len() ==> out@[k] == grow[k]);
                assert(forall|k: int|
                    grow.len() <= k < out@.len() ==> out@[k] == grest[k - grow.len()]);
            }
            lemma_dnf_view_skip(a@, i as int);
            assert forall|obj: ObjV|
                #![trigger dnf_sem(obj, dnf_view(out@))]
                dnf_sem(obj, dnf_view(out@)) == (dnf_sem(obj, dnf_view(a@.skip(i as int)))
                    && dnf_sem(obj, dnf_view(b@))) by {
                lemma_dnf_sem_concat(obj, dnf_view(grow), dnf_view(grest));
                lemma_row_sem(obj, a@[i as int], b@, grow);
                assert(dnf_sem(obj, dnf_view(grest)) == (dnf_sem(
                    obj,
                    dnf_view(a@.skip(i as int + 1)),
                ) && dnf_sem(obj, dnf_view(b@))));
                lemma_dnf_sem_concat(
                    obj,
                    seq![clause_view(a@[i as int])],
                    dnf_view(a@.skip(i as int + 1)),
                );
                assert(dnf_sem(obj, seq![clause_view(a@[i as int])]) == clause_sem(
                    obj,
                    clause_view(a@[i as int]),
                )) by {
                    if clause_sem(obj, clause_view(a@[i as int])) {
                        assert(clause_sem(obj, seq![clause_view(a@[i as int])][0]));
                    }
                }
            }
        }
        out
    }
}

/// The cross product of two clause sets: one clause per pair, joined.
/// Its disjunction is the conjunction of the two disjunctions.
fn cross(a: &Vec<SubRule>, b: &Vec<SubRule>) -> (r: Vec<SubRule>)
    requires
        clauses_wf(a@),
        clauses_wf(b@),
    ensures
        clauses_wf(r@),
        dnf_view(r@) == g_cross(dnf_view(a@), dnf_view(b@)),
        forall|obj: ObjV|
            #![trigger dnf_sem(obj, dnf_view(r@))]
            dnf_sem(obj, dnf_view(r@)) == (dnf_sem(obj, dnf_view(a@)) && dnf_sem(
                obj,
                dnf_view(b@),
            )),
{
    let out = cross_from(a, b, 0);
    proof {
        assert(a@.skip(0) =~= a@);
        assert(dnf_view(a@).skip(0) =~= dnf_view(a@));
    }
    out
}

/// Appends the second clause set to the first.
fn union_clauses(a: Vec<SubRule>, b: Vec<SubRule>) -> (r: Vec<SubRule>)
    ensures
        r@ == a@ + b@,
{
    let mut a = a;
    let mut b = b;
    a.append(&mut b);
    a
}

/// Rewrites `a` (negated when `neg` holds) into clauses whose
/// disjunction means the same as the tree, for covered objects.
fn normalize_rec(a: &Ast, neg: bool) -> (r: Vec<SubRule>)
    requires
        ast_wf(*a),
    ensures
        clauses_wf(r@),
        dnf_view(r@) == g_norm(ast_view(*a), neg),
        forall|obj: ObjV|
            obj_wf(obj) && ast_covered(obj, *a) ==> #[trigger] dnf_sem(obj, dnf_view(r@)) == (
            if neg {
                !ast_sem(obj, *a)
            } else {
                ast_sem(obj, *a)
            }),
    decreases *a,
{
    match a {
        Ast::Comparison(c) => {
            if !neg {
                let mut out: Vec<SubRule> = Vec::new();
                let mut j: usize = 0;
                while j < c.values.len()
                    invariant
                        cmp_wf(*c),
                        j <= c.values@.len(),
                        out@.len() == j,
                        clauses_wf(out@),
                        forall|k: int|
                            0 <= k < j ==> clause_view(#[trigger] out@[k]) =~= seq![
                                (c.tag@, c.op, c.values@[k]@),
                            ],
                    decreases c.values@.len() - j,
                {
                    let cmp = single(&c.tag, c.op, &c.values[j]);
                    let mut comps: Vec<Comparison> = Vec::new();
                    comps.push(cmp);
                    let ghost before = out@;
                    let sr = SubRule { expected_count: 1, actual_count: 0, comparisons: comps };
                    proof {
                        assert(clause_view(sr) =~= seq![(c.tag@, c.op, c.values@[j as int]@)]);
                    }
                    out.push(sr);
                    j = j + 1;
                }
                proof {
                    let vs = c.values@.map_values(|v: String| v@);
                    assert(ast_view(*a) == GAst::Cmp(c.tag@, c.op, vs));
                    assert(dnf_view(out@) =~= g_norm(ast_view(*a), false)) by {
                        assert forall|k: int| 0 <= k < out@.len() implies dnf_view(out@)[k]
                            == g_norm(ast_view(*a), false)[k] by {
                            assert(dnf_view(out@)[k] == clause_view(out@[k]));
                            assert(clause_view(out@[k]) == seq![(c.tag@, c.op, c.values@[k]@)]);
                            assert(g_norm(ast_view(*a), false)[k] == seq![(c.tag@, c.op, vs[k])]);
                            assert(vs[k] == c.values@[k]@);
                        }
                    }
                    assert forall|obj: ObjV|
                        obj_wf(obj) && ast_covered(obj, *a) implies #[trigger] dnf_sem(
                        obj,
                        dnf_view(out@),
                    ) == ast_sem(obj, *a) by {
                        let dv = dnf_view(out@);
                        assert(dv.len() == out@.len());
                        if dnf_sem(obj, dv) {
                            let k = choose|k: int|
                                0 <= k < dv.len() && clause_sem(obj, #[trigger] dv[k]);
                            assert(dv[k] == clause_view(out@[k]));
                            assert(cmp_sem(obj, (c.tag@, c.op, c.values@[k]@))) by {
                                assert(clause_view(out@[k])[0] == (c.tag@, c.op, c.values@[k]@));
                            }
                            assert(leaf_sem(obj, *c));
                        }
                        if leaf_sem(obj, *c) {
                            let jj = choose|jj: int|
                                0 <= jj < c.values@.len() && cmp_sem(
                                    obj,
                                    (c.tag@, c.op, (#[trigger] c.values@[jj])@),
                                );
                            assert(clause_sem(obj, dv[jj])) by {
                                assert(dv[jj] == clause_view(out@[jj]));
                                assert forall|m: int| 0 <= m < dv[jj].len() implies cmp_sem(
                                    obj,
                                    #[trigger] dv[jj][m],
                                ) by {
                                    assert(dv[jj][0] == (c.tag@, c.op, c.values@[jj]@));
                                }
                            }
                            assert(dnf_sem(obj, dv));
                        }
                    }
                }
                out
            } else {
                let mut comps: Vec<Comparison> = Vec::new();
                let mut j: usize = 0;
                while j < c.values.len()
                    invariant
                        cmp_wf(*c),
                        j <= c.values@.len(),
                        comps@.len() == j,
                        forall|k: int| 0 <= k < j ==> ccmp_wf(#[trigger] comps@[k]),
                        forall|k: int|
                            0 <= k < j ==> cmp_view(#[trigger] comps@[k]) == (
                            c.tag@,
                            flip_op(c.op),
                            c.values@[k]@,
                            ),
                    decreases c.values@.len() - j,
                {
                    let cmp = single(&c.tag, flip_op_exec(c.op), &c.values[j]);
                    comps.push(cmp);
                    j = j + 1;
                }
                let n = comps.len();
                let sr = SubRule { expected_count: n, actual_count: 0, comparisons: comps };
                let mut out: Vec<SubRule> = Vec::new();
                out.push(sr);
                proof {
                    let vs = c.values@.map_values(|v: String| v@);
                    assert(ast_view(*a) == GAst::Cmp(c.tag@, c.op, vs));
                    assert(clause_view(out@[0]) =~= Seq::new(
                        vs.len(),
                        |j: int| (c.tag@, flip_op(c.op), vs[j]),
                    )) by {
                        assert forall|k: int| 0 <= k < vs.len() implies clause_view(out@[0])[k]
                            == (c.tag@, flip_op(c.op), vs[k]) by {
                            assert(clause_view(out@[0])[k] == cmp_view(out@[0].comparisons@[k]));
                            assert(cmp_view(out@[0].comparisons@[k]) == (
                                c.tag@,
                                flip_op(c.op),
                                c.values@[k]@,
                            ));
                            assert(vs[k] == c.values@[k]@);
                        }
                    }
                    assert(dnf_view(out@) =~= g_norm(ast_view(*a), true)) by {
                        assert(dnf_view(out@)[0] == clause_view(out@[0]));
                    }
                    assert forall|obj: ObjV|
                        obj_wf(obj) && ast_covered(obj, *a) implies #[trigger] dnf_sem(
                        obj,
                        dnf_view(out@),
                    ) == !ast_sem(obj, *a) by {
                        let dv = dnf_view(out@);
                        let cv = clause_view(out@[0]);
                        assert(dv[0] == cv);
                        assert(cv.len() == c.values@.len());
                        assert(obj_has_tag(obj, c.tag@));
                        assert forall|m: int| 0 <= m < cv.len() implies #[trigger] cmp_sem(
                            obj,
                            cv[m],
                        ) == !cmp_sem(obj, (c.tag@, c.op, c.values@[m]@)) by {
                            assert(cv[m] == (c.tag@, flip_op(c.op), c.values@[m]@));
                            lemma_flip_op(obj, c.tag@, c.op, c.values@[m]@);
                        }
                        if clause_sem(obj, cv) {
                            assert(!leaf_sem(obj, *c)) by {
                                if leaf_sem(obj, *c) {
                                    let jj = choose|jj: int|
                                        0 <= jj < c.values@.len() && cmp_sem(
                                            obj,
                                            (c.tag@, c.op, (#[trigger] c.values@[jj])@),
                                        );
                                    assert(cmp_sem(obj, cv[jj]));
                                }
                            }
                            assert(dnf_sem(obj, dv));
                        } else {
                            let m = choose|m: int| 0 <= m < cv.len() && !cmp_sem(obj, #[trigger] cv[m]);
                            assert(cmp_sem(obj, (c.tag@, c.op, c.values@[m]@)));
                            assert(leaf_sem(obj, *c));
                            assert(!dnf_sem(obj, dv)) by {
                                if dnf_sem(obj, dv) {
                                    let k = choose|k: int|
                                        0 <= k < dv.len() && clause_sem(obj, #[trigger] dv[k]);
                                    assert(k == 0);
                                }
                            }
                        }
                    }
                }
                out
            }
        },
        Ast::And(l, r) => {
            let left = normalize_rec(l, neg);
            let right = normalize_rec(r, neg);
            if !neg {
                let out = cross(&left, &right);
                proof {
                    assert(ast_view(*a) == GAst::And(
                        Box::new(ast_view(**l)),
                        Box::new(ast_view(**r)),
                    ));
                    assert(dnf_view(out@) == g_norm(ast_view(*a), false));
                    assert forall|obj: ObjV|
                        obj_wf(obj) && ast_covered(obj, *a) implies #[trigger] dnf_sem(
                        obj,
                        dnf_view(out@),
                    ) == ast_sem(obj, *a) by {
                        assert(dnf_sem(obj, dnf_view(out@)) == (dnf_sem(obj, dnf_view(left@))
                            && dnf_sem(obj, dnf_view(right@))));
                        assert(dnf_sem(obj, dnf_view(left@)) == ast_sem(obj, **l));
                        assert(dnf_sem(obj, dnf_view(right@)) == ast_sem(obj, **r));
                    }
                }
                out
            } else {
                let ghost gl = left@;
                let ghost gr = right@;
                let out = union_clauses(left, right);
                proof {
                    assert(dnf_view(out@) =~= dnf_view(gl) + dnf_view(gr));
                    assert(ast_view(*a) == GAst::And(
                        Box::new(ast_view(**l)),
                        Box::new(ast_view(**r)),
                    ));
                    assert(dnf_view(out@) == g_norm(ast_view(*a), true));
                    assert forall|obj: ObjV|
                        obj_wf(obj) && ast_covered(obj, *a) implies #[trigger] dnf_sem(
                        obj,
                        dnf_view(out@),
                    ) == !ast_sem(obj, *a) by {
                        lemma_dnf_sem_concat(obj, dnf_view(gl), dnf_view(gr));
                        assert(dnf_sem(obj, dnf_view(gl)) == !ast_sem(obj, **l));
                        assert(dnf_sem(obj, dnf_view(gr)) == !ast_sem(obj, **r));
                    }
                    assert(clauses_wf(out@)) by {
                        assert(forall|k: int| 0 <= k < gl.len() ==> out@[k] == gl[k]);
                        assert(forall|k: int|
                            gl.len() <= k < out@.len() ==> out@[k] == gr[k - gl.len()]);
                    }
                }
                out
            }
        },
        Ast::Or(l, r) => {
            let left = normalize_rec(l, neg);
            let right = normalize_rec(r, neg);
            if !neg {
                let ghost gl = left@;
                let ghost gr = right@;
                let out = union_clauses(left, right);
                proof {
                    assert(dnf_view(out@) =~= dnf_view(gl) + dnf_view(gr));
                    assert(ast_view(*a) == GAst::Or(
                        Box::new(ast_view(**l)),
                        Box::new(ast_view(**r)),
                    ));
                    assert(dnf_view(out@) == g_norm(ast_view(*a), false));
                    assert forall|obj: ObjV|
                        obj_wf(obj) && ast_covered(obj, *a) implies #[trigger] dnf_sem(
                        obj,
                        dnf_view(out@),
                    ) == ast_sem(obj, *a) by {
                        lemma_dnf_sem_concat(obj, dnf_view(gl), dnf_view(gr));
                        assert(dnf_sem(obj, dnf_view(gl)) == ast_sem(obj, **l));
                        assert(dnf_sem(obj, dnf_view(gr)) == ast_sem(obj, **r));
                    }
                    assert(clauses_wf(out@)) by {
                        assert(forall|k: int| 0 <= k < gl.len() ==> out@[k] == gl[k]);
                        assert(forall|k: int|
                            gl.len() <= k < out@.len() ==> out@[k] == gr[k - gl.len()]);
                    }
                }
                out
            } else {
                let out = cross(&left, &right);
                proof {
                    assert(ast_view(*a) == GAst::Or(
                        Box::new(ast_view(**l)),
                        Box::new(ast_view(**r)),
                    ));
                    assert(dnf_view(out@) == g_norm(ast_view(*a), true));
                    assert forall|obj: ObjV|
                        obj_wf(obj) && ast_covered(obj, *a) implies #[trigger] dnf_sem(
                        obj,
                        dnf_view(out@),
                    ) == !ast_sem(obj, *a) by {
                        assert(dnf_sem(obj, dnf_view(out@)) == (dnf_sem(obj, dnf_view(left@))
                            && dnf_sem(obj, dnf_view(right@))));
                        assert(dnf_sem(obj, dnf_view(left@)) == !ast_sem(obj, **l));
                        assert(dnf_sem(obj, dnf_view(right@)) == !ast_sem(obj, **r));
                    }
                }
                out
            }
        },
        Ast::Group(i) => {
            let out = normalize_rec(i, neg);
            proof {
                assert(ast_view(*a) == GAst::Group(Box::new(ast_view(**i))));
                assert(dnf_view(out@) == g_norm(ast_view(*a), neg));
            }
            out
        },
        Ast::Negate(i) => {
            let out = normalize_rec(i, !neg);
            proof {
                assert(ast_view(*a) == GAst::Negate(Box::new(ast_view(**i))));
                assert(dnf_view(out@) == g_norm(ast_view(*a), neg));
            }
            out
        },
    }
}

/// Compiles a rule tree into disjunctive normal form. For every
/// well-formed object that names each tag the rule mentions, the
/// returned clauses are satisfied exactly when the tree is.
pub fn normalize(a: &Ast) -> (r: Vec<SubRule>)
    requires
        ast_wf(*a),
    ensures
        clauses_wf(r@),
        dnf_view(r@) == g_norm(ast_view(*a), false),
        forall|obj: ObjV|
            obj_wf(obj) && ast_covered(obj, *a) ==> #[trigger] dnf_sem(obj, dnf_view(r@))
                == ast_sem(obj, *a),
{
    normalize_rec(a, false)
}

} // verus!
