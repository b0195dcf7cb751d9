//! Character and string helpers shared by the parsers and writers.
//!
//! All logic works over `Vec<char>` (viewed as `Seq<char>`); the two
//! conversion functions at the bottom bridge to `String`. Case folding
//! and whitespace are ASCII: tag and value names are plain identifiers.

use vstd::prelude::*;

verus! {

/// Extension trait giving positional character access on strings.
pub trait StringIndexing {
    fn at(&self, index: usize) -> Option<char>;
}

impl StringIndexing for str {
    /// Returns the character at `index`, or `None` past the end.
    fn at(&self, index: usize) -> (r: Option<char>)
        ensures
            index < self@.len() ==> r == Some(self@[index as int]),
            index >= self@.len() ==> r is None,
    {
        let n = self.unicode_len();
        if index < n {
            Some(self.get_char(index))
        } else {
            None
        }
    }
}

/// ASCII whitespace, the only whitespace the rule and tag formats use.
pub open spec fn is_space(c: char) -> bool {
    c == ' ' || c == '\t' || c == '\r' || c == '\n'
}

/// Exec mirror of `is_space`.
#[verifier::when_used_as_spec(is_space)]
pub fn is_space_exec(c: char) -> (r: bool)
    ensures
        r == is_space(c),
{
    c == ' ' || c == '\t' || c == '\r' || c == '\n'
}

/// ASCII case folding for one character: `A`..`Z` map to `a`..`z`,
/// every other character — non-ASCII capitals included — is left as
/// it is. Tag names, values and rule identifiers are treated as
/// ASCII throughout the engine; this is a deliberate restriction.
pub open spec fn lower_char(c: char) -> char {
    if 'A' <= c && c <= 'Z' {
        ((c as u8) + 32) as char
    } else {
        c
    }
}

/// Exec mirror of `lower_char`.
#[verifier::when_used_as_spec(lower_char)]
pub fn lower_char_exec(c: char) -> (r: char)
    ensures
        r == lower_char(c),
{
    if 'A' <= c && c <= 'Z' {
        (((c as u8) + 32) as char)
    } else {
        c
    }
}

/// ASCII case folding for a character sequence.
pub open spec fn lower(s: Seq<char>) -> Seq<char> {
    s.map_values(|c: char| lower_char(c))
}

/// Lowercases a character vector.
pub fn lower_chars(s: &Vec<char>) -> (r: Vec<char>)
    ensures
        r@ == lower(s@),
{
    let mut out: Vec<char> = Vec::new();
    let mut i: usize = 0;
    while i < s.len()
        invariant
            i <= s.len(),
            out@ == lower(s@).take(i as int),
        decreases s.len() - i,
    {
        out.push(lower_char_exec(s[i]));
        i = i + 1;
        proof {
            assert(out@ =~= lower(s@).take(i as int));
        }
    }
    proof {
        assert(lower(s@).take(s@.len() as int) =~= lower(s@));
    }
    out
}

/// First index at or after `from` whose character is not whitespace
/// (`s.len()` if none).
pub open spec fn skip_spaces(s: Seq<char>, from: int) -> int
    decreases s.len() - from,
{
    if from < 0 || from >= s.len() {
        s.len() as int
    } else if is_space(s[from]) {
        skip_spaces(s, from + 1)
    } else {
        from
    }
}

proof fn lemma_skip_spaces_bounds(s: Seq<char>, from: int)
    requires
        0 <= from <= s.len(),
    ensures
        from <= skip_spaces(s, from) <= s.len(),
        forall|k: int| from <= k < skip_spaces(s, from) ==> is_space(s[k]),
        skip_spaces(s, from) < s.len() ==> !is_space(s[skip_spaces(s, from)]),
    decreases s.len() - from,
{
    if from < s.len() && is_space(s[from]) {
        lemma_skip_spaces_bounds(s, from + 1);
    }
}

/// One past the last non-whitespace index before `upto` (`0` if none).
pub open spec fn rskip_spaces(s: Seq<char>, upto: int) -> int
    decreases upto,
{
    if upto <= 0 || upto > s.len() {
        0
    } else if is_space(s[upto - 1]) {
        rskip_spaces(s, upto - 1)
    } else {
        upto
    }
}

/// The trimmed form of `s`: the subrange with leading and trailing
/// whitespace removed.
pub open spec fn trim(s: Seq<char>) -> Seq<char> {
    let lo = skip_spaces(s, 0);
    let hi = rskip_spaces(s, s.len() as int);
    if lo <= hi {
        s.subrange(lo, hi)
    } else {
        Seq::empty()
    }
}

/// A sequence is trimmed when it neither starts nor ends with whitespace.
pub open spec fn is_trimmed(s: Seq<char>) -> bool {
    (s.len() > 0 ==> !is_space(s[0])) && (s.len() > 0 ==> !is_space(s[s.len() - 1]))
}

proof fn lemma_rskip_spaces_bounds(s: Seq<char>, upto: int)
    requires
        0 <= upto <= s.len(),
    ensures
        0 <= rskip_spaces(s, upto) <= upto,
        forall|k: int| rskip_spaces(s, upto) <= k < upto ==> is_space(s[k]),
        rskip_spaces(s, upto) > 0 ==> !is_space(s[rskip_spaces(s, upto) - 1]),
    decreases upto,
{
    if upto > 0 && is_space(s[upto - 1]) {
        lemma_rskip_spaces_bounds(s, upto - 1);
    }
}

/// Facts callers need about `trim`: it yields a trimmed subrange of `s`,
/// and it is the identity on already-trimmed sequences.
pub proof fn lemma_trim(s: Seq<char>)
    ensures
        trim(s).len() <= s.len(),
        is_trimmed(trim(s)),
        is_trimmed(s) ==> trim(s) == s,
{
    lemma_skip_spaces_bounds(s, 0);
    lemma_rskip_spaces_bounds(s, s.len() as int);
    let lo = skip_spaces(s, 0);
    let hi = rskip_spaces(s, s.len() as int);
    if lo < hi {
        assert(!is_space(s[lo]));
        assert(!is_space(s[hi - 1]));
    }
    if lo >= hi {
        assert(trim(s).len() == 0);
    }
    if is_trimmed(s) {
        if s.len() == 0 {
            assert(trim(s) =~= s);
        } else {
            assert(lo == 0);
            assert(hi == s.len());
            assert(trim(s) =~= s);
        }
    }
}

/// Exec trim over a character vector.
pub fn trim_chars(s: &Vec<char>) -> (r: Vec<char>)
    ensures
        r@ == trim(s@),
{
    let ghost gs = s@;
    let mut lo: usize = 0;
    while lo < s.len() && is_space_exec(s[lo])
        invariant
            gs == s@,
            0 <= lo <= s.len(),
            skip_spaces(gs, 0) == skip_spaces(gs, lo as int),
        decreases s.len() - lo,
    {
        proof {
            assert(skip_spaces(gs, lo as int) == skip_spaces(gs, lo as int + 1));
        }
        lo = lo + 1;
    }
    proof {
        lemma_skip_spaces_bounds(gs, lo as int);
        assert(skip_spaces(gs, lo as int) == lo as int);
    }
    let mut hi: usize = s.len();
    while hi > lo && is_space_exec(s[hi - 1])
        invariant
            gs == s@,
            lo <= hi <= s.len(),
            rskip_spaces(gs, gs.len() as int) == rskip_spaces(gs, hi as int),
        decreases hi,
    {
        proof {
            assert(rskip_spaces(gs, hi as int) == rskip_spaces(gs, hi as int - 1));
        }
        hi = hi - 1;
    }
    proof {
        lemma_rskip_spaces_bounds(gs, hi as int);
        if hi > lo {
            assert(rskip_spaces(gs, hi as int) == hi as int);
        } else {
            assert(hi == lo);
            lemma_skip_spaces_bounds(gs, 0);
            if hi > 0 && !is_space(gs[hi - 1]) {
                assert(rskip_spaces(gs, hi as int) == hi as int);
            }
        }
    }
    let mut out: Vec<char> = Vec::new();
    let mut i: usize = lo;
    while i < hi
        invariant
            gs == s@,
            lo <= i <= hi <= s.len(),
            out@ == gs.subrange(lo as int, i as int),
        decreases hi - i,
    {
        out.push(s[i]);
        proof {
            assert(out@ =~= gs.subrange(lo as int, i as int + 1));
        }
        i = i + 1;
    }
    proof {
        let slo = skip_spaces(gs, 0);
        let shi = rskip_spaces(gs, gs.len() as int);
        lemma_skip_spaces_bounds(gs, 0);
        lemma_rskip_spaces_bounds(gs, gs.len() as int);
        if slo <= shi {
            assert(slo == lo as int && shi == hi as int) by {
                if hi as int != shi {
                    assert(rskip_spaces(gs, gs.len() as int) == rskip_spaces(gs, hi as int));
                }
            }
            assert(out@ =~= trim(gs));
        } else {
            assert(out@ =~= trim(gs));
        }
    }
    out
}

/// True when `s` contains `c`.
pub open spec fn contains_char(s: Seq<char>, c: char) -> bool {
    exists|i: int| 0 <= i < s.len() && s[i] == c
}

/// Exec search for a character.
pub fn find_char(s: &Vec<char>, c: char) -> (r: Option<usize>)
    ensures
        match r {
            Some(i) => i < s@.len() && s@[i as int] == c && forall|k: int|
                0 <= k < i ==> s@[k] != c,
            None => !contains_char(s@, c),
        },
{
    let mut i: usize = 0;
    while i < s.len()
        invariant
            i <= s.len(),
            forall|k: int| 0 <= k < i ==> s@[k] != c,
        decreases s.len() - i,
    {
        if s[i] == c {
            return Some(i);
        }
        i = i + 1;
    }
    None
}

/// Number of occurrences of `c` in `s`.
pub open spec fn count_char(s: Seq<char>, c: char) -> nat
    decreases s.len(),
{
    if s.len() == 0 {
        0
    } else {
        (if s[0] == c {
            1nat
        } else {
            0nat
        }) + count_char(s.drop_first(), c)
    }
}

/// Index of the first occurrence of `c` in `s` (`s.len()` if absent).
pub open spec fn find_index(s: Seq<char>, c: char) -> int
    decreases s.len(),
{
    if s.len() == 0 {
        0
    } else if s[0] == c {
        0
    } else {
        1 + find_index(s.drop_first(), c)
    }
}

pub proof fn lemma_find_index(s: Seq<char>, c: char)
    ensures
        0 <= find_index(s, c) <= s.len(),
        find_index(s, c) < s.len() ==> s[find_index(s, c)] == c,
        forall|k: int| 0 <= k < find_index(s, c) ==> s[k] != c,
        find_index(s, c) == s.len() ==> !contains_char(s, c),
    decreases s.len(),
{
    if s.len() > 0 && s[0] != c {
        lemma_find_index(s.drop_first(), c);
        assert forall|k: int| 0 <= k < find_index(s, c) implies s[k] != c by {
            if k > 0 {
                assert(s.drop_first()[k - 1] != c);
            }
        }
        if find_index(s, c) == s.len() && contains_char(s, c) {
            let i = choose|i: int| 0 <= i < s.len() && s[i] == c;
            assert(s.drop_first()[i - 1] == c);
        }
    }
}

/// The pieces of `s` between occurrences of the separator `c`.
/// An empty sequence yields one empty piece, as `str::split` does.
pub open spec fn split_char(s: Seq<char>, c: char) -> Seq<Seq<char>>
    decreases s.len(),
    via split_char_decreases
{
    let i = find_index(s, c);
    if i == s.len() {
        seq![s]
    } else {
        seq![s.take(i)] + split_char(s.skip(i + 1), c)
    }
}

#[via_fn]
proof fn split_char_decreases(s: Seq<char>, c: char) {
    lemma_find_index(s, c);
}

pub proof fn lemma_split_char_props(s: Seq<char>, c: char)
    ensures
        split_char(s, c).len() == count_char(s, c) + 1,
        forall|p: int| 0 <= p < split_char(s, c).len() ==> !contains_char(
            #[trigger] split_char(s, c)[p],
            c,
        ),
    decreases s.len(),
{
    lemma_find_index(s, c);
    let i = find_index(s, c);
    if i == s.len() {
        lemma_count_char_zero(s, c);
    } else {
        lemma_split_char_props(s.skip(i + 1), c);
        lemma_count_char_skip(s, c, i);
        assert forall|p: int| 0 <= p < split_char(s, c).len() implies !contains_char(
            #[trigger] split_char(s, c)[p],
            c,
        ) by {
            if p == 0 {
                assert(forall|k: int| 0 <= k < i ==> s[k] != c);
                if contains_char(s.take(i), c) {
                    let k = choose|k: int| 0 <= k < i && s.take(i)[k] == c;
                    assert(s[k] == c);
                }
            } else {
                assert(split_char(s, c)[p] == split_char(s.skip(i + 1), c)[p - 1]);
            }
        }
    }
}

proof fn lemma_count_char_zero(s: Seq<char>, c: char)
    requires
        forall|k: int| 0 <= k < s.len() ==> s[k] != c,
    ensures
        count_char(s, c) == 0,
    decreases s.len(),
{
    if s.len() > 0 {
        lemma_count_char_zero(s.drop_first(), c);
    }
}

proof fn lemma_count_char_skip(s: Seq<char>, c: char, i: int)
    requires
        0 <= i < s.len(),
        s[i] == c,
        forall|k: int| 0 <= k < i ==> s[k] != c,
    ensures
        count_char(s, c) == 1 + count_char(s.skip(i + 1), c),
    decreases i,
{
    if i == 0 {
        assert(s.drop_first() =~= s.skip(1));
    } else {
        lemma_count_char_skip(s.drop_first(), c, i - 1);
        assert(s.drop_first().skip(i) =~= s.skip(i + 1));
    }
}

/// Copies `v[from..to]` into a fresh vector.
pub fn sub_vec(v: &Vec<char>, from: usize, to: usize) -> (r: Vec<char>)
    requires
        from <= to <= v@.len(),
    ensures
        r@ == v@.subrange(from as int, to as int),
{
    let mut out: Vec<char> = Vec::new();
    let mut i: usize = from;
    while i < to
        invariant
            from <= i <= to <= v@.len(),
            out@ == v@.subrange(from as int, i as int),
        decreases to - i,
    {
        out.push(v[i]);
        proof {
            assert(out@ =~= v@.subrange(from as int, i as int + 1));
        }
        i = i + 1;
    }
    out
}

/// Splits `v` on every occurrence of `c`; mirrors `split_char`.
pub fn split_on(v: &Vec<char>, c: char) -> (r: Vec<Vec<char>>)
    ensures
        r@.map_values(|p: Vec<char>| p@) == split_char(v@, c),
{
    let mut pieces: Vec<Vec<char>> = Vec::new();
    let mut rest: Vec<char> = v.clone();
    proof {
        assert(rest@ == v@);
    }
    loop
        invariant
            split_char(v@, c) == pieces@.map_values(|p: Vec<char>| p@) + split_char(rest@, c),
        decreases rest@.len(),
    {
        proof {
            lemma_find_index(rest@, c);
        }
        match find_char(&rest, c) {
            Some(i) => {
                proof {
                    lemma_find_index_is(rest@, c, i as int);
                }
                let piece = sub_vec(&rest, 0, i);
                proof {
                    assert(piece@ =~= rest@.take(i as int));
                }
                let n = rest.len();
                let new_rest = sub_vec(&rest, i + 1, n);
                proof {
                    assert(new_rest@ =~= rest@.skip(i as int + 1));
                }
                let ghost before = pieces@;
                pieces.push(piece);
                proof {
                    assert(pieces@.map_values(|p: Vec<char>| p@) =~= before.map_values(
                        |p: Vec<char>| p@,
                    ).push(piece@));
                }
                rest = new_rest;
            },
            None => {
                proof {
                    assert(find_index(rest@, c) == rest@.len()) by {
                        lemma_find_index(rest@, c);
                        if find_index(rest@, c) < rest@.len() {
                            assert(contains_char(rest@, c));
                        }
                    }
                }
                pieces.push(rest);
                proof {
                    assert(pieces@.map_values(|p: Vec<char>| p@) =~= split_char(v@, c));
                }
                return pieces;
            },
        }
    }
}

pub proof fn lemma_find_index_is(s: Seq<char>, c: char, i: int)
    requires
        0 <= i < s.len(),
        s[i] == c,
        forall|k: int| 0 <= k < i ==> s[k] != c,
    ensures
        find_index(s, c) == i,
{
    lemma_find_index(s, c);
    let f = find_index(s, c);
    if f < i {
        assert(s[f] == c);
    }
    if f > i {
        assert(s[i] != c);
    }
}

/// A subrange holds no character the whole sequence lacks.
pub proof fn lemma_no_char_subrange(s: Seq<char>, c: char, a: int, b: int)
    requires
        !contains_char(s, c),
        0 <= a <= b <= s.len(),
    ensures
        !contains_char(s.subrange(a, b), c),
{
    if contains_char(s.subrange(a, b), c) {
        let k = choose|k: int| 0 <= k < b - a && #[trigger] s.subrange(a, b)[k] == c;
        assert(s[a + k] == c);
    }
}

/// Trimming keeps the absence of a character.
pub proof fn lemma_no_char_trim(s: Seq<char>, c: char)
    requires
        !contains_char(s, c),
    ensures
        !contains_char(trim(s), c),
{
    lemma_skip_spaces_bounds(s, 0);
    lemma_rskip_spaces_bounds(s, s.len() as int);
    let lo = skip_spaces(s, 0);
    let hi = rskip_spaces(s, s.len() as int);
    if lo <= hi {
        lemma_no_char_subrange(s, c, lo, hi);
    } else {
        if contains_char(trim(s), c) {
            let k = choose|k: int| 0 <= k < trim(s).len() && #[trigger] trim(s)[k] == c;
        }
    }
}

/// The exact shape of `trim`: with all whitespace outside `[a, b)`
/// and none at its edges, trimming yields precisely that subrange.
pub proof fn lemma_trim_exact(s: Seq<char>, a: int, b: int)
    requires
        0 <= a <= b <= s.len(),
        forall|k: int| 0 <= k < a ==> is_space(s[k]),
        forall|k: int| b <= k < s.len() ==> is_space(s[k]),
        a < b ==> !is_space(s[a]) && !is_space(s[b - 1]),
    ensures
        trim(s) == s.subrange(a, b),
{
    lemma_skip_spaces_bounds(s, 0);
    lemma_rskip_spaces_bounds(s, s.len() as int);
    let lo = skip_spaces(s, 0);
    let hi = rskip_spaces(s, s.len() as int);
    if a < b {
        assert(lo == a) by {
            if lo < a {
                assert(!is_space(s[lo]));
                assert(is_space(s[lo]));
            }
            if lo > a {
                assert(is_space(s[a]));
            }
        }
        assert(hi == b) by {
            if hi > b {
                assert(!is_space(s[hi - 1]));
                assert(is_space(s[hi - 1]));
            }
            if hi < b {
                assert(is_space(s[b - 1]));
            }
        }
    } else {
        assert(forall|k: int| 0 <= k < s.len() ==> is_space(s[k]));
        if s.len() > 0 {
            assert(lo == s.len()) by {
                if lo < s.len() {
                    assert(!is_space(s[lo]));
                }
            }
            assert(hi == 0) by {
                if hi > 0 {
                    assert(!is_space(s[hi - 1]));
                }
            }
            assert(trim(s) =~= s.subrange(a, b));
        } else {
            assert(trim(s) =~= s.subrange(a, b));
        }
    }
}

/// A sequence without the separator splits into itself alone.
pub proof fn lemma_split_single(s: Seq<char>, c: char)
    requires
        !contains_char(s, c),
    ensures
        split_char(s, c) == seq![s],
{
    lemma_find_index(s, c);
    if find_index(s, c) < s.len() {
        assert(contains_char(s, c));
    }
}

/// A sequence with exactly one separator splits into the two sides.
pub proof fn lemma_split_two(s: Seq<char>, c: char, p: int)
    requires
        0 <= p < s.len(),
        s[p] == c,
        forall|k: int| 0 <= k < s.len() && k != p ==> s[k] != c,
    ensures
        split_char(s, c) == seq![s.take(p), s.skip(p + 1)],
{
    lemma_find_index_is(s, c, p);
    assert(!contains_char(s.skip(p + 1), c)) by {
        if contains_char(s.skip(p + 1), c) {
            let k = choose|k: int| 0 <= k < s.skip(p + 1).len() && #[trigger] s.skip(p + 1)[k] == c;
            assert(s[p + 1 + k] == c);
        }
    }
    lemma_split_single(s.skip(p + 1), c);
    assert(split_char(s, c) =~= seq![s.take(p), s.skip(p + 1)]);
}

/// Every piece of a split holds no character the sequence lacks.
pub proof fn lemma_split_pieces_no_char(s: Seq<char>, c: char, d: char)
    requires
        !contains_char(s, d),
        c != d,
    ensures
        forall|p: int|
            0 <= p < split_char(s, c).len() ==> !contains_char(#[trigger] split_char(s, c)[p], d),
    decreases s.len(),
{
    lemma_find_index(s, c);
    let i = find_index(s, c);
    if i == s.len() {
    } else {
        assert(!contains_char(s.skip(i + 1), d)) by {
            if contains_char(s.skip(i + 1), d) {
                let k = choose|k: int| 0 <= k < s.skip(i + 1).len() && #[trigger] s.skip(i + 1)[k] == d;
                assert(s[i + 1 + k] == d);
            }
        }
        lemma_split_pieces_no_char(s.skip(i + 1), c, d);
        assert forall|p: int|
            0 <= p < split_char(s, c).len() implies !contains_char(
            #[trigger] split_char(s, c)[p],
            d,
        ) by {
            if p == 0 {
                lemma_no_char_subrange(s, d, 0, i);
                assert(s.take(i) =~= s.subrange(0, i));
            } else {
                assert(split_char(s, c)[p] == split_char(s.skip(i + 1), c)[p - 1]);
            }
        }
    }
}

/// `s` ends with `suf`.
pub open spec fn has_suffix(s: Seq<char>, suf: Seq<char>) -> bool {
    s.len() >= suf.len() && s.subrange(s.len() - suf.len(), s.len() as int) == suf
}

/// Exec suffix test on character vectors.
pub fn ends_with_chars(v: &Vec<char>, suf: &Vec<char>) -> (r: bool)
    ensures
        r == has_suffix(v@, suf@),
{
    let n = v.len();
    let m = suf.len();
    if n < m {
        return false;
    }
    let mut i: usize = 0;
    while i < m
        invariant
            m <= n,
            n == v@.len(),
            m == suf@.len(),
            i <= m,
            forall|k: int| 0 <= k < i ==> v@[n - m + k] == suf@[k],
        decreases m - i,
    {
        if v[n - m + i] != suf[i] {
            proof {
                assert(v@.subrange(n - m, n as int)[i as int] != suf@[i as int]);
            }
            return false;
        }
        i = i + 1;
    }
    proof {
        assert(v@.subrange(n - m, n as int) =~= suf@);
    }
    true
}

/// Relies on `String::push`: appends exactly the given character.
#[verifier::external_body]
fn push_char(s: &mut String, c: char)
    ensures
        final(s)@ == old(s)@.push(c),
{
    s.push(c)
}

/// Builds a `String` holding exactly the characters of `v`.
pub fn chars_to_string(v: &Vec<char>) -> (r: String)
    ensures
        r@ == v@,
{
    let mut out = String::new();
    let mut i: usize = 0;
    while i < v.len()
        invariant
            i <= v.len(),
            out@ == v@.take(i as int),
        decreases v.len() - i,
    {
        push_char(&mut out, v[i]);
        i = i + 1;
        proof {
            assert(out@ =~= v@.take(i as int));
        }
    }
    proof {
        assert(v@.take(v@.len() as int) =~= v@);
    }
    out
}

/// Turns a string into its character vector.
pub fn to_chars(s: &str) -> (r: Vec<char>)
    ensures
        r@ == s@,
{
    let n = s.unicode_len();
    let mut out: Vec<char> = Vec::new();
    let mut i: usize = 0;
    while i < n
        invariant
            i <= n,
            n == s@.len(),
            out@ == s@.take(i as int),
        decreases n - i,
    {
        out.push(s.get_char(i));
        i = i + 1;
        proof {
            assert(out@ =~= s@.take(i as int));
        }
    }
    proof {
        assert(s@.take(s@.len() as int) =~= s@);
    }
    out
}

} // verus!
