//! Denotational semantics of rules over objects.
//!
//! An object is modelled as a sequence of attributes, each a name with
//! a set of values; all matching is case-insensitive. These spec
//! functions give the meaning of a comparison, of a syntax tree, and
//! of a compiled disjunctive normal form, and are the yardstick the
//! normalizer and the evaluator are proved against.

use vstd::prelude::*;
use crate::strutil::lower;
use crate::types::{Ast, Comparison, ComparisonOp, SubRule};

verus! {

/// The model of one object attribute: its name and its values.
pub type AttrV = (Seq<char>, Seq<Seq<char>>);

/// The model of an object: its attributes in order.
pub type ObjV = Seq<AttrV>;

/// The model of a compiled comparison: tag, operator, single value.
pub type CmpV = (Seq<char>, ComparisonOp, Seq<char>);

/// The attribute's name equals `tag`, case-insensitively.
pub open spec fn attr_named(attr: AttrV, tag: Seq<char>) -> bool {
    lower(attr.0) == lower(tag)
}

/// The attribute carries `value`, case-insensitively.
pub open spec fn attr_has_value(attr: AttrV, value: Seq<char>) -> bool {
    exists|j: int| 0 <= j < attr.1.len() && lower(#[trigger] attr.1[j]) == lower(value)
}

/// The comparison's test against one attribute: the names agree and
/// the operator's value test passes.
pub open spec fn cmp_matches_attr(c: CmpV, attr: AttrV) -> bool {
    attr_named(attr, c.0) && (if c.1 is ISEQ {
        attr_has_value(attr, c.2)
    } else {
        !attr_has_value(attr, c.2)
    })
}

/// A single-valued comparison holds of an object when some attribute
/// passes its test.
pub open spec fn cmp_sem(obj: ObjV, c: CmpV) -> bool {
    exists|i: int| 0 <= i < obj.len() && cmp_matches_attr(c, #[trigger] obj[i])
}

/// The object names `tag`.
pub open spec fn obj_has_tag(obj: ObjV, tag: Seq<char>) -> bool {
    exists|i: int| 0 <= i < obj.len() && attr_named(#[trigger] obj[i], tag)
}

/// A well-formed object: no two attributes share a (lowercased) name.
pub open spec fn obj_wf(obj: ObjV) -> bool {
    forall|i: int, j: int|
        0 <= i < j < obj.len() ==> lower((#[trigger] obj[i]).0) != lower((#[trigger] obj[j]).0)
}

/// The meaning of a comparison leaf: its comma list is OR-combined.
pub open spec fn leaf_sem(obj: ObjV, c: Comparison) -> bool {
    exists|j: int|
        0 <= j < c.values@.len() && cmp_sem(obj, (c.tag@, c.op, (#[trigger] c.values@[j])@))
}

/// The meaning of a rule's syntax tree against an object.
pub open spec fn ast_sem(obj: ObjV, a: Ast) -> bool
    decreases a,
{
    match a {
        Ast::Comparison(c) => leaf_sem(obj, c),
        Ast::And(l, r) => ast_sem(obj, *l) && ast_sem(obj, *r),
        Ast::Or(l, r) => ast_sem(obj, *l) || ast_sem(obj, *r),
        Ast::Group(i) => ast_sem(obj, *i),
        Ast::Negate(i) => !ast_sem(obj, *i),
    }
}

/// The object gives every tag the tree mentions at least one value.
pub open spec fn ast_covered(obj: ObjV, a: Ast) -> bool
    decreases a,
{
    match a {
        Ast::Comparison(c) => obj_has_tag(obj, c.tag@),
        Ast::And(l, r) => ast_covered(obj, *l) && ast_covered(obj, *r),
        Ast::Or(l, r) => ast_covered(obj, *l) && ast_covered(obj, *r),
        Ast::Group(i) => ast_covered(obj, *i),
        Ast::Negate(i) => ast_covered(obj, *i),
    }
}

/// The view of a compiled comparison, which carries exactly one value.
pub open spec fn cmp_view(c: Comparison) -> CmpV {
    (c.tag@, c.op, c.values@[0]@)
}

/// A compiled comparison is single-valued.
pub open spec fn ccmp_wf(c: Comparison) -> bool {
    c.values@.len() == 1
}

/// The view of one conjunctive clause.
pub open spec fn clause_view(sr: SubRule) -> Seq<CmpV> {
    sr.comparisons@.map_values(|c: Comparison| cmp_view(c))
}

/// A well-formed compiled clause: at least one single-valued
/// comparison, the expected count equal to the clause size, and a
/// reset counter.
pub open spec fn clause_wf(sr: SubRule) -> bool {
    &&& sr.comparisons@.len() >= 1
    &&& sr.expected_count == sr.comparisons@.len()
    &&& sr.actual_count == 0
    &&& forall|k: int| 0 <= k < sr.comparisons@.len() ==> ccmp_wf(#[trigger] sr.comparisons@[k])
}

/// Every clause of a compiled rule is well-formed.
pub open spec fn clauses_wf(rs: Seq<SubRule>) -> bool {
    forall|k: int| 0 <= k < rs.len() ==> clause_wf(#[trigger] rs[k])
}

/// The view of a compiled rule: its clauses' views.
pub open spec fn dnf_view(rs: Seq<SubRule>) -> Seq<Seq<CmpV>> {
    rs.map_values(|sr: SubRule| clause_view(sr))
}

/// A clause is satisfied when every comparison in it holds.
pub open spec fn clause_sem(obj: ObjV, cv: Seq<CmpV>) -> bool {
    forall|k: int| 0 <= k < cv.len() ==> cmp_sem(obj, #[trigger] cv[k])
}

/// A disjunctive normal form is satisfied when some clause is.
pub open spec fn dnf_sem(obj: ObjV, cvs: Seq<Seq<CmpV>>) -> bool {
    exists|k: int| 0 <= k < cvs.len() && clause_sem(obj, #[trigger] cvs[k])
}

/// The model of an executable object: attribute names and value
/// lists, as character sequences.
pub open spec fn obj_view(o: Seq<(String, Vec<String>)>) -> ObjV {
    o.map_values(|p: (String, Vec<String>)| (p.0@, p.1@.map_values(|v: String| v@)))
}

/// Flipping the operator complements a comparison's meaning, for
/// well-formed objects that name the comparison's tag.
pub proof fn lemma_flip_op(obj: ObjV, tag: Seq<char>, op: ComparisonOp, value: Seq<char>)
    requires
        obj_wf(obj),
        obj_has_tag(obj, tag),
    ensures
        cmp_sem(obj, (tag, flip_op(op), value)) == !cmp_sem(obj, (tag, op, value)),
{
    let i0 = choose|i: int| 0 <= i < obj.len() && attr_named(#[trigger] obj[i], tag);
    assert forall|i: int|
        0 <= i < obj.len() && attr_named(#[trigger] obj[i], tag) implies i == i0 by {
        if i != i0 {
            assert(lower(obj[i].0) == lower(tag));
            assert(lower(obj[i0].0) == lower(tag));
        }
    }
    if attr_has_value(obj[i0], value) {
        assert(cmp_sem(obj, (tag, ComparisonOp::ISEQ, value)));
        assert(!cmp_sem(obj, (tag, ComparisonOp::NOEQ, value))) by {
            if cmp_sem(obj, (tag, ComparisonOp::NOEQ, value)) {
                let i = choose|i: int|
                    0 <= i < obj.len() && cmp_matches_attr(
                        (tag, ComparisonOp::NOEQ, value),
                        #[trigger] obj[i],
                    );
                assert(i == i0);
            }
        }
    } else {
        assert(cmp_sem(obj, (tag, ComparisonOp::NOEQ, value)));
        assert(!cmp_sem(obj, (tag, ComparisonOp::ISEQ, value))) by {
            if cmp_sem(obj, (tag, ComparisonOp::ISEQ, value)) {
                let i = choose|i: int|
                    0 <= i < obj.len() && cmp_matches_attr(
                        (tag, ComparisonOp::ISEQ, value),
                        #[trigger] obj[i],
                    );
                assert(i == i0);
            }
        }
    }
}

/// The opposite comparison operator.
pub open spec fn flip_op(op: ComparisonOp) -> ComparisonOp {
    if op is ISEQ {
        ComparisonOp::NOEQ
    } else {
        ComparisonOp::ISEQ
    }
}

/// Exec mirror of `flip_op`.
#[verifier::when_used_as_spec(flip_op)]
pub fn flip_op_exec(op: ComparisonOp) -> (r: ComparisonOp)
    ensures
        r == flip_op(op),
{
    match op {
        ComparisonOp::ISEQ => ComparisonOp::NOEQ,
        ComparisonOp::NOEQ => ComparisonOp::ISEQ,
    }
}

/// Comma-expansion is equivalent to explicit OR: a comparison whose
/// value list is the concatenation of two lists means exactly the
/// disjunction of the two comparisons over those lists, against every
/// object.
pub proof fn lemma_comma_expansion(obj: ObjV, c: Comparison, c1: Comparison, c2: Comparison)
    requires
        c1.tag@ == c.tag@,
        c2.tag@ == c.tag@,
        c1.op == c.op,
        c2.op == c.op,
        c.values@.map_values(|v: String| v@) == c1.values@.map_values(|v: String| v@)
            + c2.values@.map_values(|v: String| v@),
    ensures
        leaf_sem(obj, c) == (leaf_sem(obj, c1) || leaf_sem(obj, c2)),
{
    let m = c.values@.map_values(|v: String| v@);
    let m1 = c1.values@.map_values(|v: String| v@);
    let m2 = c2.values@.map_values(|v: String| v@);
    assert(m.len() == m1.len() + m2.len());
    if leaf_sem(obj, c) {
        let j = choose|j: int|
            0 <= j < c.values@.len() && cmp_sem(obj, (c.tag@, c.op, (#[trigger] c.values@[j])@));
        assert(m[j] == c.values@[j]@);
        if j < m1.len() {
            assert(m1[j] == c1.values@[j]@);
            assert(cmp_sem(obj, (c1.tag@, c1.op, c1.values@[j]@)));
            assert(leaf_sem(obj, c1));
        } else {
            assert(m2[j - m1.len()] == c2.values@[j - m1.len()]@);
            assert(cmp_sem(obj, (c2.tag@, c2.op, c2.values@[j - m1.len()]@)));
            assert(leaf_sem(obj, c2));
        }
    }
    if leaf_sem(obj, c1) {
        let j = choose|j: int|
            0 <= j < c1.values@.len() && cmp_sem(obj, (c1.tag@, c1.op, (#[trigger] c1.values@[j])@));
        assert(m1[j] == c1.values@[j]@);
        assert(m[j] == c.values@[j]@);
        assert(cmp_sem(obj, (c.tag@, c.op, c.values@[j]@)));
        assert(leaf_sem(obj, c));
    }
    if leaf_sem(obj, c2) {
        let j = choose|j: int|
            0 <= j < c2.values@.len() && cmp_sem(obj, (c2.tag@, c2.op, (#[trigger] c2.values@[j])@));
        assert(m2[j] == c2.values@[j]@);
        assert(m[m1.len() + j] == c.values@[m1.len() + j]@);
        assert(cmp_sem(obj, (c.tag@, c.op, c.values@[m1.len() + j]@)));
        assert(leaf_sem(obj, c));
    }
}

/// Satisfaction of a concatenated clause splits into both halves.
pub proof fn lemma_clause_sem_concat(obj: ObjV, x: Seq<CmpV>, y: Seq<CmpV>)
    ensures
        clause_sem(obj, x + y) == (clause_sem(obj, x) && clause_sem(obj, y)),
{
    if clause_sem(obj, x + y) {
        assert forall|k: int| 0 <= k < x.len() implies cmp_sem(obj, #[trigger] x[k]) by {
            assert((x + y)[k] == x[k]);
        }
        assert forall|k: int| 0 <= k < y.len() implies cmp_sem(obj, #[trigger] y[k]) by {
            assert((x + y)[x.len() + k] == y[k]);
        }
    }
    if clause_sem(obj, x) && clause_sem(obj, y) {
        assert forall|k: int| 0 <= k < (x + y).len() implies cmp_sem(obj, #[trigger] (x + y)[k]) by {
            if k < x.len() {
                assert((x + y)[k] == x[k]);
            } else {
                assert((x + y)[k] == y[k - x.len()]);
            }
        }
    }
}

/// Satisfaction of an appended normal form is the disjunction of the
/// two parts' satisfactions.
pub proof fn lemma_dnf_sem_concat(obj: ObjV, x: Seq<Seq<CmpV>>, y: Seq<Seq<CmpV>>)
    ensures
        dnf_sem(obj, x + y) == (dnf_sem(obj, x) || dnf_sem(obj, y)),
{
    if dnf_sem(obj, x) {
        let k = choose|k: int| 0 <= k < x.len() && clause_sem(obj, #[trigger] x[k]);
        assert((x + y)[k] == x[k]);
        assert(dnf_sem(obj, x + y));
    }
    if dnf_sem(obj, y) {
        let k = choose|k: int| 0 <= k < y.len() && clause_sem(obj, #[trigger] y[k]);
        assert((x + y)[x.len() + k] == y[k]);
        assert(dnf_sem(obj, x + y));
    }
    if dnf_sem(obj, x + y) && !dnf_sem(obj, x) && !dnf_sem(obj, y) {
        let k = choose|k: int| 0 <= k < (x + y).len() && clause_sem(obj, #[trigger] (x + y)[k]);
        if k < x.len() {
            assert((x + y)[k] == x[k]);
        } else {
            assert((x + y)[k] == y[k - x.len()]);
        }
    }
}

} // verus!
