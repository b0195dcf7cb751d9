//! Recursive-descent parser for the rule grammar.
//!
//! Grammar, precedence low to high:
//!
//! ```text
//! rule       := '-' or-expr
//! or-expr    := and-expr ('|' and-expr)*
//! and-expr   := atom ('&' atom)*
//! atom       := comparison | '(' or-expr ')' | '-' '(' or-expr ')'
//! comparison := word ('=' | '!') word (',' word)*
//! ```
//!
//! The mandatory leading `-` marks the line as a rule and carries no
//! meaning; a further `-` immediately before `(` inside the body
//! negates that group. A comparison's comma-separated values are
//! OR-combined against its tag and operator; leading, trailing or
//! doubled commas are syntax errors.
//!
//! On success the parser is exact at the token level: the accepted
//! token sequence is the rule marker followed by precisely the tokens
//! the returned tree prints back to (`ast_tokens`).

use vstd::prelude::*;
use crate::error::RulesError;
use crate::strutil::{chars_to_string, to_chars};
use crate::strutil::is_space;
use crate::token::{
    GTok,
    is_symbol,
    Token,
    is_word_char,
    spec_tokenize,
    tokenize,
    word_len,
    lemma_word_len,
};
use crate::types::{Ast, Comparison, ComparisonOp};

verus! {

/// The surface character of a comparison operator.
pub open spec fn op_char(op: ComparisonOp) -> char {
    if op is ISEQ {
        '='
    } else {
        '!'
    }
}

/// A word of the rule grammar: non-empty, all word characters.
pub open spec fn wf_rule_word(s: Seq<char>) -> bool {
    s.len() > 0 && forall|k: int| 0 <= k < s.len() ==> is_word_char(s[k])
}

/// A well-formed comparison: a word tag and at least one word value.
pub open spec fn cmp_wf(c: Comparison) -> bool {
    &&& wf_rule_word(c.tag@)
    &&& c.values@.len() >= 1
    &&& forall|j: int| 0 <= j < c.values@.len() ==> wf_rule_word((#[trigger] c.values@[j])@)
}

/// Every comparison leaf of the tree is well-formed.
pub open spec fn ast_wf(a: Ast) -> bool
    decreases a,
{
    match a {
        Ast::Comparison(c) => cmp_wf(c),
        Ast::And(l, r) => ast_wf(*l) && ast_wf(*r),
        Ast::Or(l, r) => ast_wf(*l) && ast_wf(*r),
        Ast::Group(i) => ast_wf(*i),
        Ast::Negate(i) => ast_wf(*i),
    }
}

/// The tokens of a comma-separated value list.
pub open spec fn vals_tokens(vs: Seq<Seq<char>>) -> Seq<GTok>
    decreases vs.len(),
{
    if vs.len() == 0 {
        Seq::empty()
    } else if vs.len() == 1 {
        seq![GTok::Word(vs[0])]
    } else {
        seq![GTok::Word(vs[0]), GTok::Sym(',')] + vals_tokens(vs.drop_first())
    }
}

/// The tokens a comparison prints back to.
pub open spec fn cmp_tokens(c: Comparison) -> Seq<GTok> {
    seq![GTok::Word(c.tag@), GTok::Sym(op_char(c.op))] + vals_tokens(
        c.values@.map_values(|v: String| v@),
    )
}

/// The tokens a syntax tree prints back to.
pub open spec fn ast_tokens(a: Ast) -> Seq<GTok>
    decreases a,
{
    match a {
        Ast::Comparison(c) => cmp_tokens(c),
        Ast::And(l, r) => ast_tokens(*l) + seq![GTok::Sym('&')] + ast_tokens(*r),
        Ast::Or(l, r) => ast_tokens(*l) + seq![GTok::Sym('|')] + ast_tokens(*r),
        Ast::Group(i) => seq![GTok::Sym('(')] + ast_tokens(*i) + seq![GTok::Sym(')')],
        Ast::Negate(i) => seq![GTok::Sym('-'), GTok::Sym('(')] + ast_tokens(*i) + seq![
            GTok::Sym(')'),
        ],
    }
}

/// The token view of an executable token sequence.
pub open spec fn toks_view(ts: Seq<Token>) -> Seq<GTok> {
    ts.map_values(|t: Token| t@)
}

/// A symbol, or a word that is a well-formed rule word.
pub open spec fn wf_tok(t: GTok) -> bool {
    match t {
        GTok::Word(w) => wf_rule_word(w),
        GTok::Sym(_) => true,
    }
}

/// Every word token is a well-formed rule word.
pub open spec fn wf_toks(ts: Seq<GTok>) -> bool {
    forall|i: int| 0 <= i < ts.len() ==> wf_tok(#[trigger] ts[i])
}

/// The tokenizer only emits well-formed word tokens.
pub proof fn lemma_spec_tokenize_wf(s: Seq<char>)
    ensures
        wf_toks(spec_tokenize(s)),
    decreases s.len(),
{
    if s.len() == 0 {
    } else if is_space(s[0]) {
        lemma_spec_tokenize_wf(s.drop_first());
    } else if is_symbol(s[0]) {
        lemma_spec_tokenize_wf(s.drop_first());
        assert forall|i: int| 0 <= i < spec_tokenize(s).len() implies wf_tok(
            #[trigger] spec_tokenize(s)[i],
        ) by {
            if i > 0 {
                assert(spec_tokenize(s)[i] == spec_tokenize(s.drop_first())[i - 1]);
                assert(wf_tok(spec_tokenize(s.drop_first())[i - 1]));
            }
        }
    } else {
        lemma_word_len(s);
        lemma_spec_tokenize_wf(s.skip(word_len(s)));
        assert(word_len(s) >= 1) by {
            lemma_word_len(s.drop_first());
        }
        assert(wf_rule_word(s.take(word_len(s)))) by {
            assert(forall|k: int|
                0 <= k < word_len(s) ==> is_word_char(#[trigger] s.take(word_len(s))[k]));
        }
        assert forall|i: int| 0 <= i < spec_tokenize(s).len() implies wf_tok(
            #[trigger] spec_tokenize(s)[i],
        ) by {
            if i > 0 {
                assert(spec_tokenize(s)[i] == spec_tokenize(s.skip(word_len(s)))[i - 1]);
                assert(wf_tok(spec_tokenize(s.skip(word_len(s)))[i - 1]));
            }
        }
    }
}

/// Appending one more value to a non-empty list appends `, value` to
/// its token form.
proof fn lemma_vals_tokens_push(vs: Seq<Seq<char>>, w: Seq<char>)
    requires
        vs.len() >= 1,
    ensures
        vals_tokens(vs.push(w)) == vals_tokens(vs) + seq![GTok::Sym(','), GTok::Word(w)],
    decreases vs.len(),
{
    if vs.len() == 1 {
        assert(vs.push(w).drop_first() =~= seq![w]);
        assert(vals_tokens(vs.push(w)) =~= vals_tokens(vs) + seq![GTok::Sym(','), GTok::Word(w)]);
    } else {
        lemma_vals_tokens_push(vs.drop_first(), w);
        assert(vs.push(w).drop_first() =~= vs.drop_first().push(w));
        assert(vs.push(w)[0] == vs[0]);
        assert(vals_tokens(vs.push(w)) == seq![GTok::Word(vs[0]), GTok::Sym(',')] + vals_tokens(
            vs.push(w).drop_first(),
        ));
        assert(vals_tokens(vs.push(w).drop_first()) == vals_tokens(vs.drop_first()) + seq![
            GTok::Sym(','),
            GTok::Word(w),
        ]);
        assert(vals_tokens(vs) == seq![GTok::Word(vs[0]), GTok::Sym(',')] + vals_tokens(
            vs.drop_first(),
        ));
        assert(vals_tokens(vs.push(w)) =~= vals_tokens(vs) + seq![GTok::Sym(','), GTok::Word(w)]);
    }
}

/// The mathematical form of a rule's syntax tree: the same shape as
/// [`Ast`], over character sequences. The reference parser below
/// builds these, and the executable parser is proved to return
/// exactly the tree the reference parser denotes.
pub enum GAst {
    Cmp(Seq<char>, ComparisonOp, Seq<Seq<char>>),
    And(Box<GAst>, Box<GAst>),
    Or(Box<GAst>, Box<GAst>),
    Group(Box<GAst>),
    Negate(Box<GAst>),
}

/// The mathematical view of an executable syntax tree.
pub open spec fn ast_view(a: Ast) -> GAst
    decreases a,
{
    match a {
        Ast::Comparison(c) => GAst::Cmp(c.tag@, c.op, c.values@.map_values(|v: String| v@)),
        Ast::And(l, r) => GAst::And(Box::new(ast_view(*l)), Box::new(ast_view(*r))),
        Ast::Or(l, r) => GAst::Or(Box::new(ast_view(*l)), Box::new(ast_view(*r))),
        Ast::Group(i) => GAst::Group(Box::new(ast_view(*i))),
        Ast::Negate(i) => GAst::Negate(Box::new(ast_view(*i))),
    }
}

/// Reference parse of the `(',' word)*` tail of a value list.
pub open spec fn sp_vals_rest(t: Seq<GTok>, p: int, acc: Seq<Seq<char>>) -> Option<
    (Seq<Seq<char>>, int),
>
    decreases t.len() - p,
{
    if p < t.len() && t[p] == GTok::Sym(',') {
        if p + 1 < t.len() && (t[p + 1] is Word) {
            sp_vals_rest(t, p + 2, acc.push(t[p + 1]->Word_0))
        } else {
            Option::None
        }
    } else {
        Option::Some((acc, p))
    }
}

/// Reference parse of one comparison: `word op word (',' word)*`.
pub open spec fn sp_cmp(t: Seq<GTok>, pos: int) -> Option<(GAst, int)> {
    if pos < t.len() && (t[pos] is Word) {
        if pos + 1 < t.len() && (t[pos + 1] == GTok::Sym('=') || t[pos + 1] == GTok::Sym('!')) {
            let op = if t[pos + 1] == GTok::Sym('=') {
                ComparisonOp::ISEQ
            } else {
                ComparisonOp::NOEQ
            };
            if pos + 2 < t.len() && (t[pos + 2] is Word) {
                match sp_vals_rest(t, pos + 3, seq![t[pos + 2]->Word_0]) {
                    Option::Some((vs, p)) => Option::Some(
                        (GAst::Cmp(t[pos]->Word_0, op, vs), p),
                    ),
                    Option::None => Option::None,
                }
            } else {
                Option::None
            }
        } else {
            Option::None
        }
    } else {
        Option::None
    }
}

/// Reference parse of one atom: a group, a negated group, or a
/// comparison.
pub open spec fn sp_atom(t: Seq<GTok>, pos: int) -> Option<(GAst, int)>
    decreases t.len() - pos, 0int,
{
    if pos < t.len() && t[pos] == GTok::Sym('(') {
        match sp_or(t, pos + 1) {
            Option::Some((inner, p)) => if p < t.len() && t[p] == GTok::Sym(')') {
                Option::Some((GAst::Group(Box::new(inner)), p + 1))
            } else {
                Option::None
            },
            Option::None => Option::None,
        }
    } else if pos < t.len() && t[pos] == GTok::Sym('-') {
        if pos + 1 < t.len() && t[pos + 1] == GTok::Sym('(') {
            match sp_or(t, pos + 2) {
                Option::Some((inner, p)) => if p < t.len() && t[p] == GTok::Sym(')') {
                    Option::Some((GAst::Negate(Box::new(inner)), p + 1))
                } else {
                    Option::None
                },
                Option::None => Option::None,
            }
        } else {
            Option::None
        }
    } else {
        sp_cmp(t, pos)
    }
}

/// Reference parse of the `('&' atom)*` tail, folding left.
pub open spec fn sp_and_rest(t: Seq<GTok>, p: int, acc: GAst) -> Option<(GAst, int)>
    decreases t.len() - p, 1int,
{
    if p < t.len() && t[p] == GTok::Sym('&') {
        match sp_atom(t, p + 1) {
            Option::Some((b, p2)) => if p < p2 <= t.len() {
                sp_and_rest(t, p2, GAst::And(Box::new(acc), Box::new(b)))
            } else {
                Option::None
            },
            Option::None => Option::None,
        }
    } else {
        Option::Some((acc, p))
    }
}

/// Reference parse of `atom ('&' atom)*`.
pub open spec fn sp_and(t: Seq<GTok>, pos: int) -> Option<(GAst, int)>
    decreases t.len() - pos, 2int,
{
    match sp_atom(t, pos) {
        Option::Some((a, p)) => if pos < p <= t.len() {
            sp_and_rest(t, p, a)
        } else {
            Option::None
        },
        Option::None => Option::None,
    }
}

/// Reference parse of the `('|' and-expr)*` tail, folding left.
pub open spec fn sp_or_rest(t: Seq<GTok>, p: int, acc: GAst) -> Option<(GAst, int)>
    decreases t.len() - p, 3int,
{
    if p < t.len() && t[p] == GTok::Sym('|') {
        match sp_and(t, p + 1) {
            Option::Some((b, p2)) => if p < p2 <= t.len() {
                sp_or_rest(t, p2, GAst::Or(Box::new(acc), Box::new(b)))
            } else {
                Option::None
            },
            Option::None => Option::None,
        }
    } else {
        Option::Some((acc, p))
    }
}

/// Reference parse of `and-expr ('|' and-expr)*`.
pub open spec fn sp_or(t: Seq<GTok>, pos: int) -> Option<(GAst, int)>
    decreases t.len() - pos, 4int,
{
    match sp_and(t, pos) {
        Option::Some((a, p)) => if pos < p <= t.len() {
            sp_or_rest(t, p, a)
        } else {
            Option::None
        },
        Option::None => Option::None,
    }
}

/// Reference parse of a whole rule: the `-` marker, one or-expression,
/// and nothing after it.
pub open spec fn sp_rule(t: Seq<GTok>) -> Option<GAst> {
    if t.len() > 0 && t[0] == GTok::Sym('-') {
        match sp_or(t, 1) {
            Option::Some((a, p)) => if p == t.len() {
                Option::Some(a)
            } else {
                Option::None
            },
            Option::None => Option::None,
        }
    } else {
        Option::None
    }
}

/// The grammar, as a function: the tree a rule string denotes, or
/// `None` when the string does not follow the grammar.
pub open spec fn spec_parse_rule(s: Seq<char>) -> Option<GAst> {
    sp_rule(spec_tokenize(s))
}

/// Is the token at `p` the symbol `c`?
fn peek_sym(toks: &Vec<Token>, p: usize, c: char) -> (r: bool)
    requires
        p < toks@.len(),
    ensures
        r == (toks_view(toks@)[p as int] == GTok::Sym(c)),
{
    let t = &toks[p];
    match t {
        Token::Sym(s) => *s == c,
        Token::Word(_) => false,
    }
}

/// Parses `word op word (, word)*` starting at `pos`.
fn parse_comparison(toks: &Vec<Token>, pos: usize) -> (r: Result<(Comparison, usize), RulesError>)
    requires
        wf_toks(toks_view(toks@)),
    ensures
        match r {
            Ok((c, np)) => pos < np <= toks@.len() && cmp_wf(c) && toks_view(toks@).subrange(
                pos as int,
                np as int,
            ) == cmp_tokens(c) && sp_cmp(toks_view(toks@), pos as int) == Option::Some(
                (GAst::Cmp(c.tag@, c.op, c.values@.map_values(|v: String| v@)), np as int),
            ),
            Err(e) => e is RuleParseError && sp_cmp(toks_view(toks@), pos as int) is None,
        },
{
    let ghost gt = toks_view(toks@);
    proof {
        assert(gt.len() == toks@.len());
    }
    let n = toks.len();
    if pos >= n {
        return Err(
            RulesError::RuleParseError(
                String::from_str("Expected a comparison, found end of rule"),
            ),
        );
    }
    let tag: String = match &toks[pos] {
        Token::Word(w) => chars_to_string(w),
        Token::Sym(_) => {
            proof {
                assert(gt[pos as int] == toks@[pos as int]@);
                assert(!(gt[pos as int] is Word));
            }
            return Err(
                RulesError::RuleParseError(
                    String::from_str("Expected a tag name where a symbol was found"),
                ),
            );
        },
    };
    proof {
        assert(gt[pos as int] == GTok::Word(tag@));
    }
    if pos + 1 >= n {
        return Err(
            RulesError::RuleParseError(String::from_str("Missing operator after tag name")),
        );
    }
    let op: ComparisonOp = if peek_sym(toks, pos + 1, '=') {
        ComparisonOp::ISEQ
    } else if peek_sym(toks, pos + 1, '!') {
        ComparisonOp::NOEQ
    } else {
        return Err(
            RulesError::RuleParseError(
                String::from_str("Expected an operator '=' or '!' after tag name"),
            ),
        );
    };
    if pos + 2 >= n {
        return Err(
            RulesError::RuleParseError(String::from_str("Empty value list after operator")),
        );
    }
    let first: String = match &toks[pos + 2] {
        Token::Word(w) => chars_to_string(w),
        Token::Sym(_) => {
            proof {
                assert(gt[pos as int + 2] == toks@[pos as int + 2]@);
                assert(!(gt[pos as int + 2] is Word));
            }
            return Err(
                RulesError::RuleParseError(
                    String::from_str("Expected a value after the operator"),
                ),
            );
        },
    };
    let mut values: Vec<String> = Vec::new();
    values.push(first);
    let mut p: usize = pos + 3;
    proof {
        assert(gt[pos as int] == GTok::Word(tag@));
        assert(gt[pos as int + 2] == GTok::Word(values@[0]@));
        assert(values@.map_values(|v: String| v@) =~= seq![values@[0]@]);
        assert(gt.subrange(pos as int, p as int) =~= seq![
            GTok::Word(tag@),
            GTok::Sym(op_char(op)),
            GTok::Word(values@[0]@),
        ]);
        assert(vals_tokens(values@.map_values(|v: String| v@)) == seq![GTok::Word(values@[0]@)]);
        assert(gt.subrange(pos as int, p as int) =~= seq![
            GTok::Word(tag@),
            GTok::Sym(op_char(op)),
        ] + vals_tokens(values@.map_values(|v: String| v@)));
        assert(sp_cmp(gt, pos as int) == (match sp_vals_rest(
            gt,
            p as int,
            values@.map_values(|v: String| v@),
        ) {
            Option::Some((vs, q)) => Option::Some((GAst::Cmp(tag@, op, vs), q)),
            Option::None => Option::<(GAst, int)>::None,
        }));
    }
    loop
        invariant
            wf_toks(gt),
            gt == toks_view(toks@),
            n == toks@.len(),
            gt.len() == n,
            pos < p <= n,
            values@.len() >= 1,
            forall|j: int| 0 <= j < values@.len() ==> wf_rule_word((#[trigger] values@[j])@),
            wf_rule_word(tag@),
            gt.subrange(pos as int, p as int) == seq![
                GTok::Word(tag@),
                GTok::Sym(op_char(op)),
            ] + vals_tokens(values@.map_values(|v: String| v@)),
            sp_cmp(gt, pos as int) == (match sp_vals_rest(
                gt,
                p as int,
                values@.map_values(|v: String| v@),
            ) {
                Option::Some((vs, q)) => Option::Some((GAst::Cmp(tag@, op, vs), q)),
                Option::None => Option::<(GAst, int)>::None,
            }),
        decreases n - p,
    {
        if p < n && peek_sym(toks, p, ',') {
            if p + 1 >= n {
                proof {
                    assert(gt[p as int] == GTok::Sym(','));
                    assert(sp_vals_rest(gt, p as int, values@.map_values(|v: String| v@))
                        is None);
                }
                return Err(
                    RulesError::RuleParseError(
                        String::from_str("Trailing comma in value list"),
                    ),
                );
            }
            let next: String = match &toks[p + 1] {
                Token::Word(w) => chars_to_string(w),
                Token::Sym(_) => {
                    proof {
                        assert(gt[p as int] == GTok::Sym(','));
                        assert(gt[p as int + 1] == toks@[p as int + 1]@);
                        assert(!(gt[p as int + 1] is Word));
                        assert(sp_vals_rest(gt, p as int, values@.map_values(|v: String| v@))
                            is None);
                    }
                    return Err(
                        RulesError::RuleParseError(
                            String::from_str("Expected a value after ',' in value list"),
                        ),
                    );
                },
            };
            let ghost before = values@;
            let ghost gnext = next@;
            values.push(next);
            proof {
                assert(gt[p as int] == GTok::Sym(','));
                assert(gt[p as int + 1] == GTok::Word(gnext));
                assert(values@ == before.push(values@[values@.len() - 1]));
                let bm = before.map_values(|v: String| v@);
                let vm = values@.map_values(|v: String| v@);
                assert(vm =~= bm.push(gnext));
                lemma_vals_tokens_push(bm, gnext);
                assert(gt.subrange(pos as int, p as int + 2) =~= gt.subrange(pos as int, p as int)
                    + seq![GTok::Sym(','), GTok::Word(gnext)]);
                assert(gt.subrange(pos as int, p as int + 2) =~= seq![
                    GTok::Word(tag@),
                    GTok::Sym(op_char(op)),
                ] + vals_tokens(vm));
                assert(gt[p as int + 1]->Word_0 == gnext);
                assert(sp_vals_rest(gt, p as int, bm) == sp_vals_rest(gt, p as int + 2, vm));
            }
            p = p + 2;
        } else {
            proof {
                if p < n {
                    assert(gt[p as int] != GTok::Sym(','));
                }
                assert(sp_vals_rest(gt, p as int, values@.map_values(|v: String| v@))
                    == Option::Some((values@.map_values(|v: String| v@), p as int)));
            }
            return Ok((Comparison { tag, op, values }, p));
        }
    }
}

/// Parses one atom: a comparison, a group, or a negated group.
fn parse_atom(toks: &Vec<Token>, pos: usize) -> (r: Result<(Ast, usize), RulesError>)
    requires
        wf_toks(toks_view(toks@)),
    ensures
        match r {
            Ok((a, np)) => pos < np <= toks@.len() && ast_wf(a) && toks_view(toks@).subrange(
                pos as int,
                np as int,
            ) == ast_tokens(a) && sp_atom(toks_view(toks@), pos as int) == Option::Some(
                (ast_view(a), np as int),
            ),
            Err(e) => e is RuleParseError && sp_atom(toks_view(toks@), pos as int) is None,
        },
    decreases toks@.len() - pos, 0int,
{
    let ghost gt = toks_view(toks@);
    proof {
        assert(gt.len() == toks@.len());
    }
    let n = toks.len();
    if pos >= n {
        proof {
            assert(sp_atom(gt, pos as int) is None);
        }
        return Err(
            RulesError::RuleParseError(
                String::from_str("Expected an expression, found end of rule"),
            ),
        );
    }
    if peek_sym(toks, pos, '(') {
        let (inner, p) = match parse_or(toks, pos + 1) {
            Ok(x) => x,
            Err(e) => {
                return Err(e);
            },
        };
        if p >= n || !peek_sym(toks, p, ')') {
            return Err(
                RulesError::RuleParseError(String::from_str("Unbalanced parentheses in rule")),
            );
        }
        let a = Ast::Group(Box::new(inner));
        proof {
            assert(gt[pos as int] == GTok::Sym('('));
            assert(gt[p as int] == GTok::Sym(')'));
            assert(gt.subrange(pos as int, p as int + 1) =~= seq![GTok::Sym('(')] + gt.subrange(
                pos as int + 1,
                p as int,
            ) + seq![GTok::Sym(')')]);
            assert(sp_atom(gt, pos as int) == Option::Some((ast_view(a), p as int + 1)));
        }
        Ok((a, p + 1))
    } else if peek_sym(toks, pos, '-') {
        if pos + 1 >= n || !peek_sym(toks, pos + 1, '(') {
            return Err(
                RulesError::RuleParseError(
                    String::from_str("Expected '(' after '-' negation marker"),
                ),
            );
        }
        let (inner, p) = match parse_or(toks, pos + 2) {
            Ok(x) => x,
            Err(e) => {
                return Err(e);
            },
        };
        if p >= n || !peek_sym(toks, p, ')') {
            return Err(
                RulesError::RuleParseError(String::from_str("Unbalanced parentheses in rule")),
            );
        }
        let a = Ast::Negate(Box::new(inner));
        proof {
            assert(gt[pos as int] == GTok::Sym('-'));
            assert(gt[pos as int + 1] == GTok::Sym('('));
            assert(gt[p as int] == GTok::Sym(')'));
            assert(gt.subrange(pos as int, p as int + 1) =~= seq![
                GTok::Sym('-'),
                GTok::Sym('('),
            ] + gt.subrange(pos as int + 2, p as int) + seq![GTok::Sym(')')]);
            assert(sp_atom(gt, pos as int) == Option::Some((ast_view(a), p as int + 1)));
        }
        Ok((a, p + 1))
    } else {
        match parse_comparison(toks, pos) {
            Ok((c, p)) => {
                proof {
                    assert(sp_atom(gt, pos as int) == sp_cmp(gt, pos as int));
                    assert(ast_view(Ast::Comparison(c)) == GAst::Cmp(
                        c.tag@,
                        c.op,
                        c.values@.map_values(|v: String| v@),
                    ));
                }
                Ok((Ast::Comparison(c), p))
            },
            Err(e) => {
                proof {
                    assert(sp_atom(gt, pos as int) == sp_cmp(gt, pos as int));
                }
                Err(e)
            },
        }
    }
}

/// Parses `atom ('&' atom)*`.
fn parse_and(toks: &Vec<Token>, pos: usize) -> (r: Result<(Ast, usize), RulesError>)
    requires
        wf_toks(toks_view(toks@)),
    ensures
        match r {
            Ok((a, np)) => pos < np <= toks@.len() && ast_wf(a) && toks_view(toks@).subrange(
                pos as int,
                np as int,
            ) == ast_tokens(a) && sp_and(toks_view(toks@), pos as int) == Option::Some(
                (ast_view(a), np as int),
            ),
            Err(e) => e is RuleParseError && sp_and(toks_view(toks@), pos as int) is None,
        },
    decreases toks@.len() - pos, 1int,
{
    let ghost gt = toks_view(toks@);
    proof {
        assert(gt.len() == toks@.len());
    }
    let n = toks.len();
    let (first, p0) = match parse_atom(toks, pos) {
        Ok(x) => x,
        Err(e) => {
            return Err(e);
        },
    };
    proof {
        assert(sp_and(gt, pos as int) == sp_and_rest(gt, p0 as int, ast_view(first)));
    }
    let mut ast = first;
    let mut p = p0;
    loop
        invariant
            wf_toks(gt),
            gt == toks_view(toks@),
            n == toks@.len(),
            pos < p <= n,
            gt.len() == n,
            ast_wf(ast),
            gt.subrange(pos as int, p as int) == ast_tokens(ast),
            sp_and(gt, pos as int) == sp_and_rest(gt, p as int, ast_view(ast)),
        decreases n - p,
    {
        if p < n && peek_sym(toks, p, '&') {
            let (rhs, p2) = match parse_atom(toks, p + 1) {
                Ok(x) => x,
                Err(e) => {
                    proof {
                        assert(gt[p as int] == GTok::Sym('&'));
                        assert(sp_and_rest(gt, p as int, ast_view(ast)) is None);
                    }
                    return Err(e);
                },
            };
            proof {
                assert(gt[p as int] == GTok::Sym('&'));
                assert(gt.subrange(pos as int, p2 as int) =~= gt.subrange(pos as int, p as int)
                    + seq![GTok::Sym('&')] + gt.subrange(p as int + 1, p2 as int));
                assert(sp_and_rest(gt, p as int, ast_view(ast)) == sp_and_rest(
                    gt,
                    p2 as int,
                    GAst::And(Box::new(ast_view(ast)), Box::new(ast_view(rhs))),
                ));
            }
            ast = Ast::And(Box::new(ast), Box::new(rhs));
            p = p2;
        } else {
            proof {
                if p < n {
                    assert(gt[p as int] != GTok::Sym('&'));
                }
                assert(sp_and_rest(gt, p as int, ast_view(ast)) == Option::Some(
                    (ast_view(ast), p as int),
                ));
            }
            return Ok((ast, p));
        }
    }
}

/// Parses `and-expr ('|' and-expr)*`.
fn parse_or(toks: &Vec<Token>, pos: usize) -> (r: Result<(Ast, usize), RulesError>)
    requires
        wf_toks(toks_view(toks@)),
    ensures
        match r {
            Ok((a, np)) => pos < np <= toks@.len() && ast_wf(a) && toks_view(toks@).subrange(
                pos as int,
                np as int,
            ) == ast_tokens(a) && sp_or(toks_view(toks@), pos as int) == Option::Some(
                (ast_view(a), np as int),
            ),
            Err(e) => e is RuleParseError && sp_or(toks_view(toks@), pos as int) is None,
        },
    decreases toks@.len() - pos, 2int,
{
    let ghost gt = toks_view(toks@);
    proof {
        assert(gt.len() == toks@.len());
    }
    let n = toks.len();
    let (first, p0) = match parse_and(toks, pos) {
        Ok(x) => x,
        Err(e) => {
            return Err(e);
        },
    };
    proof {
        assert(sp_or(gt, pos as int) == sp_or_rest(gt, p0 as int, ast_view(first)));
    }
    let mut ast = first;
    let mut p = p0;
    loop
        invariant
            wf_toks(gt),
            gt == toks_view(toks@),
            n == toks@.len(),
            pos < p <= n,
            gt.len() == n,
            ast_wf(ast),
            gt.subrange(pos as int, p as int) == ast_tokens(ast),
            sp_or(gt, pos as int) == sp_or_rest(gt, p as int, ast_view(ast)),
        decreases n - p,
    {
        if p < n && peek_sym(toks, p, '|') {
            let (rhs, p2) = match parse_and(toks, p + 1) {
                Ok(x) => x,
                Err(e) => {
                    proof {
                        assert(gt[p as int] == GTok::Sym('|'));
                        assert(sp_or_rest(gt, p as int, ast_view(ast)) is None);
                    }
                    return Err(e);
                },
            };
            proof {
                assert(gt[p as int] == GTok::Sym('|'));
                assert(gt.subrange(pos as int, p2 as int) =~= gt.subrange(pos as int, p as int)
                    + seq![GTok::Sym('|')] + gt.subrange(p as int + 1, p2 as int));
                assert(sp_or_rest(gt, p as int, ast_view(ast)) == sp_or_rest(
                    gt,
                    p2 as int,
                    GAst::Or(Box::new(ast_view(ast)), Box::new(ast_view(rhs))),
                ));
            }
            ast = Ast::Or(Box::new(ast), Box::new(rhs));
            p = p2;
        } else {
            proof {
                if p < n {
                    assert(gt[p as int] != GTok::Sym('|'));
                }
                assert(sp_or_rest(gt, p as int, ast_view(ast)) == Option::Some(
                    (ast_view(ast), p as int),
                ));
            }
            return Ok((ast, p));
        }
    }
}

/// Parses one rule string into its syntax tree.
///
/// Succeeds exactly when the reference parser accepts the string's
/// tokens, and then returns precisely the tree the grammar denotes
/// (`spec_parse_rule`), which also prints back to the string's tokens
/// after the leading rule marker.
pub fn parse_rule(rule: &str) -> (r: Result<Ast, RulesError>)
    ensures
        r is Ok <==> spec_parse_rule(rule@) is Some,
        match r {
            Ok(a) => ast_wf(a) && spec_tokenize(rule@) == seq![GTok::Sym('-')] + ast_tokens(a)
                && spec_parse_rule(rule@) == Option::Some(ast_view(a)),
            Err(e) => e is RuleParseError,
        },
{
    let chars = to_chars(rule);
    let toks = tokenize(&chars);
    let ghost gt = toks_view(toks@);
    proof {
        assert(gt =~= spec_tokenize(rule@)) by {
            assert(toks@.map_values(|t: Token| t@) == spec_tokenize(chars@));
            assert forall|i: int| 0 <= i < gt.len() implies gt[i] == spec_tokenize(rule@)[i] by {
                assert(gt[i] == toks@[i]@);
                assert(toks@.map_values(|t: Token| t@)[i] == toks@[i]@);
            }
            assert(gt.len() == toks@.map_values(|t: Token| t@).len());
        }
        lemma_spec_tokenize_wf(rule@);
        assert(gt == spec_tokenize(rule@));
        assert(gt.len() == toks@.len());
    }
    let n = toks.len();
    if n == 0 || !peek_sym(&toks, 0, '-') {
        proof {
            assert(sp_rule(gt) is None);
        }
        return Err(
            RulesError::RuleParseError(
                String::from_str("A rule must begin with the '-' marker"),
            ),
        );
    }
    let (ast, p) = match parse_or(&toks, 1) {
        Ok(x) => x,
        Err(e) => {
            proof {
                assert(gt[0] == GTok::Sym('-'));
                assert(sp_rule(gt) is None);
            }
            return Err(e);
        },
    };
    if p < n {
        proof {
            assert(gt[0] == GTok::Sym('-'));
            assert(sp_rule(gt) is None);
        }
        return Err(
            RulesError::RuleParseError(
                String::from_str("Unexpected input after the end of the rule"),
            ),
        );
    }
    proof {
        assert(gt[0] == GTok::Sym('-'));
        assert(gt =~= seq![GTok::Sym('-')] + gt.subrange(1, n as int));
        assert(sp_rule(gt) == Option::Some(ast_view(ast)));
    }
    Ok(ast)
}

} // verus!
