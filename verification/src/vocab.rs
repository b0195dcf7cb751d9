//! The tag vocabulary store: the case-insensitive mapping from tag
//! names to their allowed values.
//!
//! The store is a list of [`Tag`] entries holding lowercased names and
//! values. A name may appear in several entries (one per source line
//! that mentioned it); a tag's allowed-value set is the union over all
//! of its entries, which gives the merge-on-load semantics directly.

use vstd::prelude::*;
use crate::strutil::{lower, lower_chars, to_chars, lower_char};
use crate::types::Tag;

verus! {

/// The vocabulary knows `name` (case-insensitively).
pub open spec fn vocab_has(ts: Seq<Tag>, name: Seq<char>) -> bool {
    exists|i: int| 0 <= i < ts.len() && (#[trigger] ts[i].name)@ == lower(name)
}

/// The vocabulary allows `value` for `name` (both case-insensitively).
pub open spec fn vocab_allows(ts: Seq<Tag>, name: Seq<char>, value: Seq<char>) -> bool {
    exists|i: int, j: int|
        0 <= i < ts.len() && 0 <= j < (#[trigger] ts[i].values)@.len() && ts[i].name@ == lower(
            name,
        ) && (#[trigger] ts[i].values@[j])@ == lower(value)
}

/// Lowercasing is idempotent, character by character.
pub proof fn lemma_lower_idempotent(s: Seq<char>)
    ensures
        lower(lower(s)) == lower(s),
{
    assert(lower(lower(s)) =~= lower(s)) by {
        assert forall|k: int| 0 <= k < s.len() implies lower(lower(s))[k] == lower(s)[k] by {
            assert(lower(s)[k] == lower_char(s[k]));
        }
    }
}

/// Tag and value lookups are case-insensitive: a query and its
/// lowercased form answer alike, for `has` and for `allows`.
pub proof fn lemma_vocab_case_insensitive(ts: Seq<Tag>, name: Seq<char>, value: Seq<char>)
    ensures
        vocab_has(ts, name) == vocab_has(ts, lower(name)),
        vocab_allows(ts, name, value) == vocab_allows(ts, lower(name), lower(value)),
{
    lemma_lower_idempotent(name);
    lemma_lower_idempotent(value);
}

/// Character-wise equality of two character vectors.
pub fn chars_eq(a: &Vec<char>, b: &Vec<char>) -> (r: bool)
    ensures
        r == (a@ == b@),
{
    if a.len() != b.len() {
        proof {
            assert(a@ != b@);
        }
        return false;
    }
    let mut i: usize = 0;
    while i < a.len()
        invariant
            a@.len() == b@.len(),
            i <= a@.len(),
            forall|k: int| 0 <= k < i ==> a@[k] == b@[k],
        decreases a@.len() - i,
    {
        if a[i] != b[i] {
            proof {
                assert(a@ != b@);
            }
            return false;
        }
        i = i + 1;
    }
    proof {
        assert(a@ =~= b@);
    }
    true
}

/// Exec lookup: does the store know this (arbitrary-case) name?
pub fn vocab_has_exec(ts: &Vec<Tag>, name: &Vec<char>) -> (r: bool)
    ensures
        r == vocab_has(ts@, name@),
{
    let query = lower_chars(name);
    let mut i: usize = 0;
    while i < ts.len()
        invariant
            query@ == lower(name@),
            i <= ts@.len(),
            forall|k: int| 0 <= k < i ==> (#[trigger] ts@[k].name)@ != lower(name@),
        decreases ts@.len() - i,
    {
        let entry_name = to_chars(ts[i].name.as_str());
        if chars_eq(&entry_name, &query) {
            return true;
        }
        i = i + 1;
    }
    false
}

/// Exec lookup: does the store allow this (arbitrary-case) value for
/// this (arbitrary-case) name?
pub fn vocab_allows_exec(ts: &Vec<Tag>, name: &Vec<char>, value: &Vec<char>) -> (r: bool)
    ensures
        r == vocab_allows(ts@, name@, value@),
{
    let nquery = lower_chars(name);
    let vquery = lower_chars(value);
    let mut i: usize = 0;
    while i < ts.len()
        invariant
            nquery@ == lower(name@),
            vquery@ == lower(value@),
            i <= ts@.len(),
            forall|k: int, j: int|
                0 <= k < i && 0 <= j < (#[trigger] ts@[k].values)@.len() ==> !(ts@[k].name@ == lower(
                    name@,
                ) && (#[trigger] ts@[k].values@[j])@ == lower(value@)),
        decreases ts@.len() - i,
    {
        let entry_name = to_chars(ts[i].name.as_str());
        if chars_eq(&entry_name, &nquery) {
            proof {
                assert(ts@[i as int].name@ == lower(name@));
            }
            let vs = &ts[i].values;
            let mut j: usize = 0;
            while j < vs.len()
                invariant
                    vquery@ == lower(value@),
                    i < ts@.len(),
                    ts@[i as int].name@ == lower(name@),
                    vs@ == ts@[i as int].values@,
                    j <= vs@.len(),
                    forall|l: int| 0 <= l < j ==> (#[trigger] vs@[l])@ != lower(value@),
                decreases vs@.len() - j,
            {
                let entry_value = to_chars(vs[j].as_str());
                if chars_eq(&entry_value, &vquery) {
                    proof {
                        assert(ts@[i as int].values@[j as int]@ == lower(value@));
                    }
                    return true;
                }
                j = j + 1;
            }
            proof {
                assert(forall|l: int|
                    0 <= l < ts@[i as int].values@.len() ==> (#[trigger] ts@[i as int].values@[l])@
                        != lower(value@));
            }
        }
        i = i + 1;
    }
    false
}

} // verus!
