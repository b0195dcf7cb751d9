//! Tokenizer for the rule grammar.
//!
//! A rule string is cut into symbol tokens — `-`, `(`, `)`, `&`, `|`,
//! `=`, `!`, `,` — and word tokens: maximal runs of characters that
//! are neither whitespace nor a symbol. Whitespace only separates
//! tokens.

use vstd::prelude::*;
use crate::strutil::{is_space, is_space_exec, sub_vec};

verus! {

/// The symbol characters of the rule grammar.
pub open spec fn is_symbol(c: char) -> bool {
    c == '-' || c == '(' || c == ')' || c == '&' || c == '|' || c == '=' || c == '!' || c == ','
}

/// Exec mirror of `is_symbol`.
#[verifier::when_used_as_spec(is_symbol)]
pub fn is_symbol_exec(c: char) -> (r: bool)
    ensures
        r == is_symbol(c),
{
    c == '-' || c == '(' || c == ')' || c == '&' || c == '|' || c == '=' || c == '!' || c == ','
}

/// A character that may stand inside a word token.
pub open spec fn is_word_char(c: char) -> bool {
    !is_space(c) && !is_symbol(c)
}

/// Exec mirror of `is_word_char`.
#[verifier::when_used_as_spec(is_word_char)]
pub fn is_word_char_exec(c: char) -> (r: bool)
    ensures
        r == is_word_char(c),
{
    !is_space_exec(c) && !is_symbol_exec(c)
}

/// Mathematical view of a token.
pub enum GTok {
    Sym(char),
    Word(Seq<char>),
}

/// An executable token of the rule grammar.
pub enum Token {
    Sym(char),
    Word(Vec<char>),
}

impl View for Token {
    type V = GTok;

    open spec fn view(&self) -> GTok {
        match self {
            Token::Sym(c) => GTok::Sym(*c),
            Token::Word(w) => GTok::Word(w@),
        }
    }
}

/// Length of the maximal word prefix of `s`.
pub open spec fn word_len(s: Seq<char>) -> int
    decreases s.len(),
{
    if s.len() == 0 || !is_word_char(s[0]) {
        0
    } else {
        1 + word_len(s.drop_first())
    }
}

pub proof fn lemma_word_len(s: Seq<char>)
    ensures
        0 <= word_len(s) <= s.len(),
        forall|k: int| 0 <= k < word_len(s) ==> is_word_char(s[k]),
        word_len(s) < s.len() ==> !is_word_char(s[word_len(s)]),
    decreases s.len(),
{
    if s.len() > 0 && is_word_char(s[0]) {
        lemma_word_len(s.drop_first());
        assert forall|k: int| 0 <= k < word_len(s) implies is_word_char(s[k]) by {
            if k > 0 {
                assert(is_word_char(s.drop_first()[k - 1]));
            }
        }
    }
}

/// The token sequence of a rule string.
pub open spec fn spec_tokenize(s: Seq<char>) -> Seq<GTok>
    decreases s.len(),
    via spec_tokenize_decreases
{
    if s.len() == 0 {
        Seq::empty()
    } else if is_space(s[0]) {
        spec_tokenize(s.drop_first())
    } else if is_symbol(s[0]) {
        seq![GTok::Sym(s[0])] + spec_tokenize(s.drop_first())
    } else {
        seq![GTok::Word(s.take(word_len(s)))] + spec_tokenize(s.skip(word_len(s)))
    }
}

#[via_fn]
proof fn spec_tokenize_decreases(s: Seq<char>) {
    lemma_word_len(s);
    if s.len() > 0 && !is_space(s[0]) && !is_symbol(s[0]) {
        assert(word_len(s) >= 1) by {
            lemma_word_len(s.drop_first());
        }
    }
}

/// Cuts a rule string (as characters) into its tokens.
pub fn tokenize(v: &Vec<char>) -> (r: Vec<Token>)
    ensures
        r@.map_values(|t: Token| t@) == spec_tokenize(v@),
{
    let mut out: Vec<Token> = Vec::new();
    let mut i: usize = 0;
    let n = v.len();
    proof {
        assert(v@.skip(0) =~= v@);
        assert(out@.map_values(|t: Token| t@) + spec_tokenize(v@) =~= spec_tokenize(v@));
    }
    while i < n
        invariant
            n == v@.len(),
            i <= n,
            spec_tokenize(v@) == out@.map_values(|t: Token| t@) + spec_tokenize(v@.skip(i as int)),
        decreases n - i,
    {
        let c = v[i];
        proof {
            assert(v@.skip(i as int)[0] == c);
            assert(v@.skip(i as int).drop_first() =~= v@.skip(i as int + 1));
        }
        if is_space_exec(c) {
            i = i + 1;
        } else if is_symbol_exec(c) {
            let ghost before = out@;
            out.push(Token::Sym(c));
            proof {
                assert(out@.map_values(|t: Token| t@) =~= before.map_values(|t: Token| t@).push(
                    GTok::Sym(c),
                ));
                assert(spec_tokenize(v@.skip(i as int)) == seq![GTok::Sym(c)] + spec_tokenize(
                    v@.skip(i as int + 1),
                ));
                assert(spec_tokenize(v@) =~= out@.map_values(|t: Token| t@) + spec_tokenize(
                    v@.skip(i as int + 1),
                ));
            }
            i = i + 1;
        } else {
            let mut j: usize = i + 1;
            while j < n && is_word_char_exec(v[j])
                invariant
                    n == v@.len(),
                    i < j <= n,
                    forall|k: int| i <= k < j ==> is_word_char(v@[k]),
                decreases n - j,
            {
                j = j + 1;
            }
            proof {
                lemma_word_len_is(v@.skip(i as int), (j - i) as int);
            }
            let w = sub_vec(v, i, j);
            proof {
                assert(w@ =~= v@.skip(i as int).take((j - i) as int));
                assert(v@.skip(i as int).skip((j - i) as int) =~= v@.skip(j as int));
            }
            let ghost before = out@;
            out.push(Token::Word(w));
            proof {
                assert(out@.map_values(|t: Token| t@) =~= before.map_values(|t: Token| t@).push(
                    GTok::Word(v@.skip(i as int).take((j - i) as int)),
                ));
                assert(spec_tokenize(v@.skip(i as int)) == seq![
                    GTok::Word(v@.skip(i as int).take(word_len(v@.skip(i as int)))),
                ] + spec_tokenize(v@.skip(i as int).skip(word_len(v@.skip(i as int)))));
                assert(spec_tokenize(v@) =~= out@.map_values(|t: Token| t@) + spec_tokenize(
                    v@.skip(j as int),
                ));
            }
            i = j;
        }
    }
    proof {
        assert(v@.skip(n as int) =~= Seq::<char>::empty());
        assert(spec_tokenize(v@) =~= out@.map_values(|t: Token| t@));
    }
    out
}

proof fn lemma_word_len_is(s: Seq<char>, w: int)
    requires
        0 <= w <= s.len(),
        forall|k: int| 0 <= k < w ==> is_word_char(s[k]),
        w < s.len() ==> !is_word_char(s[w]),
    ensures
        word_len(s) == w,
{
    lemma_word_len(s);
    let wl = word_len(s);
    if wl < w {
        assert(is_word_char(s[wl]));
    }
    if wl > w {
        assert(is_word_char(s[w]));
    }
}

} // verus!
