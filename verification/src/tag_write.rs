//! Content-level writer for `.tags` files.
//!
//! The writer is pure: it takes the target file's current lines and
//! returns the new lines; reading and writing the file itself is the
//! caller's side. A new value list is appended to the first existing
//! entry of the tag (matched case-insensitively on name), or a new
//! tag line is created if the file has none.

use vstd::prelude::*;
use crate::error::RulesError;
use crate::strutil::{
    contains_char,
    is_space,
    lower,
    lower_chars,
    to_chars,
    chars_to_string,
    trim,
};
use crate::tags::{
    get_name_and_values_from_tag,
    join_values,
    join_values_exec,
    spec_serialize_tag,
    spec_tag_line_ok,
    spec_tag_name,
    serialize_tag,
    tail_join,
};
use crate::types::wf_word;
use crate::vocab::chars_eq;

verus! {

/// The `.tags` file extension, as characters.
pub open spec fn tags_ext() -> Seq<char> {
    seq!['.', 't', 'a', 'g', 's']
}

/// Appends the `.tags` extension unless the name already has it.
pub fn normalise_filename(file_name: &str) -> (r: String)
    ensures
        r@ == if crate::strutil::has_suffix(file_name@, tags_ext()) {
            file_name@
        } else {
            file_name@ + tags_ext()
        },
{
    let chars = to_chars(file_name);
    let mut ext: Vec<char> = Vec::new();
    ext.push('.');
    ext.push('t');
    ext.push('a');
    ext.push('g');
    ext.push('s');
    proof {
        assert(ext@ =~= tags_ext());
    }
    if crate::strutil::ends_with_chars(&chars, &ext) {
        chars_to_string(&chars)
    } else {
        let mut out = chars;
        out.push('.');
        out.push('t');
        out.push('a');
        out.push('g');
        out.push('s');
        proof {
            assert(out@ =~= file_name@ + tags_ext());
        }
        chars_to_string(&out)
    }
}

/// Arguments the tag writer accepts: a whitespace-free non-empty name
/// without a colon, and at least one whitespace-free non-empty value
/// without a colon or a comma (either would corrupt the line format).
pub open spec fn tag_write_ok(name: Seq<char>, vs: Seq<Seq<char>>) -> bool {
    &&& wf_word(name)
    &&& !contains_char(name, ':')
    &&& vs.len() >= 1
    &&& forall|j: int|
        0 <= j < vs.len() ==> wf_word(#[trigger] vs[j]) && !contains_char(vs[j], ':')
            && !contains_char(vs[j], ',')
}

/// The line is a valid tag line for this (lowercased) name.
pub open spec fn spec_line_has_tag(line: Seq<char>, lname: Seq<char>) -> bool {
    spec_tag_line_ok(line) && lower(spec_tag_name(line)) == lname
}

/// The new lines after a tag write: the value list appended to the
/// first line defining the tag, or a fresh serialized line appended.
pub open spec fn spec_tag_write(lines: Seq<Seq<char>>, lname: Seq<char>, vs: Seq<Seq<char>>) -> Seq<
    Seq<char>,
> {
    let f = find_tag_line(lines, lname);
    if f < 0 {
        lines.push(spec_serialize_tag(lname, vs))
    } else {
        lines.update(f, lines[f] + tail_join(vs))
    }
}

/// Index of the first line defining `lname`, or `-1`.
pub open spec fn find_tag_line(lines: Seq<Seq<char>>, lname: Seq<char>) -> int
    decreases lines.len(),
{
    if lines.len() == 0 {
        -1
    } else if spec_line_has_tag(lines[0], lname) {
        0
    } else {
        if find_tag_line(lines.drop_first(), lname) < 0 {
            -1
        } else {
            find_tag_line(lines.drop_first(), lname) + 1
        }
    }
}

proof fn lemma_find_tag_line_is(lines: Seq<Seq<char>>, lname: Seq<char>, p: int)
    requires
        0 <= p < lines.len(),
        spec_line_has_tag(lines[p], lname),
        forall|k: int| 0 <= k < p ==> !spec_line_has_tag(#[trigger] lines[k], lname),
    ensures
        find_tag_line(lines, lname) == p,
    decreases lines.len(),
{
    if p > 0 {
        assert(!spec_line_has_tag(lines[0], lname));
        assert(lines.drop_first()[p - 1] == lines[p]);
        assert forall|k: int| 0 <= k < p - 1 implies !spec_line_has_tag(
            #[trigger] lines.drop_first()[k],
            lname,
        ) by {
            assert(lines.drop_first()[k] == lines[k + 1]);
        }
        lemma_find_tag_line_is(lines.drop_first(), lname, p - 1);
    }
}

proof fn lemma_find_tag_line_none(lines: Seq<Seq<char>>, lname: Seq<char>)
    requires
        forall|k: int| 0 <= k < lines.len() ==> !spec_line_has_tag(#[trigger] lines[k], lname),
    ensures
        find_tag_line(lines, lname) == -1,
    decreases lines.len(),
{
    if lines.len() > 0 {
        assert forall|k: int| 0 <= k < lines.len() - 1 implies !spec_line_has_tag(
            #[trigger] lines.drop_first()[k],
            lname,
        ) by {
            assert(lines.drop_first()[k] == lines[k + 1]);
        }
        lemma_find_tag_line_none(lines.drop_first(), lname);
    }
}

/// Does this line define the tag `lname` (given in lowercase)?
fn line_has_tag_exec(line: &String, lname: &Vec<char>) -> (r: bool)
    ensures
        r == spec_line_has_tag(line@, lname@),
{
    match get_name_and_values_from_tag(line.as_str()) {
        Ok((name, _values)) => {
            let name_chars = lower_chars(&to_chars(name.as_str()));
            chars_eq(&name_chars, lname)
        },
        Err(_) => false,
    }
}

/// Computes the new lines of a `.tags` file after writing one tag.
///
/// Fails when the name or a value is empty, contains whitespace, or
/// holds a character the line format reserves. Otherwise the value
/// list is appended to the first line already defining the name
/// (case-insensitively), or a fresh `- name: values` line (name
/// lowercased) is appended.
pub fn write(existing: &Vec<String>, tag_name: &str, tag_values: &Vec<String>) -> (r: Result<
    Vec<String>,
    RulesError,
>)
    ensures
        r is Ok <==> tag_write_ok(tag_name@, tag_values@.map_values(|v: String| v@)),
        r is Err ==> r->Err_0 is TagParseError,
        r is Ok ==> ({
            let lines = existing@.map_values(|s: String| s@);
            let out = (r->Ok_0)@.map_values(|s: String| s@);
            let lname = lower(tag_name@);
            let vs = tag_values@.map_values(|v: String| v@);
            let f = find_tag_line(lines, lname);
            out == spec_tag_write(lines, lname, vs)
        }),
{
    let ghost lines = existing@.map_values(|s: String| s@);
    let ghost vs = tag_values@.map_values(|v: String| v@);
    // Validate the arguments.
    let name_chars = to_chars(tag_name);
    if name_chars.len() == 0 || has_any_space(&name_chars) {
        return Err(RulesError::TagParseError(String::from_str("Tag name cannot be empty or contain spaces")));
    }
    if has_char(&name_chars, ':') {
        return Err(RulesError::TagParseError(String::from_str("Tag name cannot contain ':'")));
    }
    if tag_values.len() == 0 {
        return Err(
            RulesError::TagParseError(String::from_str("Tag must have at least one value")),
        );
    }
    let mut j: usize = 0;
    while j < tag_values.len()
        invariant
            vs == tag_values@.map_values(|v: String| v@),
            j <= vs.len(),
            forall|l: int|
                0 <= l < j ==> wf_word(#[trigger] vs[l]) && !contains_char(vs[l], ':')
                    && !contains_char(vs[l], ','),
        decreases tag_values@.len() - j,
    {
        proof {
            assert(vs[j as int] == tag_values@[j as int]@);
        }
        let vc = to_chars(tag_values[j].as_str());
        if vc.len() == 0 || has_any_space(&vc) {
            return Err(
                RulesError::TagParseError(
                    String::from_str("Tag values cannot be empty or contain spaces"),
                ),
            );
        }
        if has_char(&vc, ':') || has_char(&vc, ',') {
            return Err(
                RulesError::TagParseError(
                    String::from_str("Tag values cannot contain ':' or ','"),
                ),
            );
        }
        j = j + 1;
    }
    let lname = lower_chars(&name_chars);
    // Find the first line already defining the tag.
    let mut f: usize = 0;
    let mut found = false;
    while f < existing.len()
        invariant_except_break
            !found,
        invariant
            lines == existing@.map_values(|s: String| s@),
            lname@ == lower(tag_name@),
            f <= lines.len(),
            forall|k: int| 0 <= k < f ==> !spec_line_has_tag(#[trigger] lines[k], lname@),
            found ==> f < lines.len() && spec_line_has_tag(lines[f as int], lname@),
        ensures
            found ==> f < lines.len() && spec_line_has_tag(lines[f as int], lname@),
            !found ==> f == lines.len(),
        decreases lines.len() - f,
    {
        proof {
            assert(lines[f as int] == existing@[f as int]@);
        }
        if line_has_tag_exec(&existing[f], &lname) {
            found = true;
            break;
        }
        f = f + 1;
    }
    if !found {
        proof {
            lemma_find_tag_line_none(lines, lname@);
        }
        // Append a fresh line.
        let lname_str = chars_to_string(&lname);
        let new_line = serialize_tag(lname_str.as_str(), tag_values);
        let mut out = clone_lines(existing);
        let ghost before = out@.map_values(|s: String| s@);
        out.push(new_line);
        proof {
            assert(out@.map_values(|s: String| s@) =~= lines.push(
                spec_serialize_tag(lower(tag_name@), vs),
            ));
            assert(out@.map_values(|s: String| s@) =~= spec_tag_write(lines, lower(tag_name@), vs));
        }
        Ok(out)
    } else {
        proof {
            lemma_find_tag_line_is(lines, lname@, f as int);
        }
        // Extend the found line in place.
        let mut out: Vec<String> = Vec::new();
        let mut k: usize = 0;
        while k < existing.len()
            invariant
                lines == existing@.map_values(|s: String| s@),
                vs == tag_values@.map_values(|v: String| v@),
                vs.len() >= 1,
                f < lines.len(),
                k <= lines.len(),
                out@.map_values(|s: String| s@).len() == k,
                forall|k2: int|
                    0 <= k2 < k && k2 != f ==> out@.map_values(|s: String| s@)[k2] == lines[k2],
                k > f ==> out@.map_values(|s: String| s@)[f as int] == lines[f as int] + tail_join(
                    vs,
                ),
            decreases lines.len() - k,
        {
            proof {
                assert(lines[k as int] == existing@[k as int]@);
            }
            let ghost before = out@.map_values(|s: String| s@);
            if k == f {
                let mut ext = to_chars(existing[k].as_str());
                ext.push(',');
                ext.push(' ');
                let joined = join_values_exec(tag_values);
                let mut m: usize = 0;
                while m < joined.len()
                    invariant
                        m <= joined@.len(),
                        ext@ == lines[f as int] + seq![',', ' '] + joined@.take(m as int),
                        lines[f as int] == existing@[f as int]@,
                        f < lines.len(),
                        joined@ == join_values(vs),
                        k == f,
                        k < lines.len(),
                    decreases joined@.len() - m,
                {
                    ext.push(joined[m]);
                    proof {
                        assert(ext@ =~= lines[f as int] + seq![',', ' '] + joined@.take(
                            m as int + 1,
                        ));
                    }
                    m = m + 1;
                }
                proof {
                    assert(joined@.take(joined@.len() as int) =~= joined@);
                    assert(ext@ =~= lines[f as int] + tail_join(vs)) by {
                        assert(vs.len() >= 1);
                        assert(tail_join(vs) =~= seq![',', ' '] + vs[0] + tail_join(
                            vs.drop_first(),
                        ));
                        assert(join_values(vs) == vs[0] + tail_join(vs.drop_first()));
                    }
                }
                out.push(chars_to_string(&ext));
            } else {
                out.push(clone_string(&existing[k]));
            }
            proof {
                assert(out@.map_values(|s: String| s@) =~= before.push(
                    out@[out@.len() - 1]@,
                ));
            }
            k = k + 1;
        }
        proof {
            assert(out@.map_values(|s: String| s@) =~= spec_tag_write(lines, lower(tag_name@), vs));
        }
        Ok(out)
    }
}

/// True when some character of `s` is whitespace.
fn has_any_space(s: &Vec<char>) -> (r: bool)
    ensures
        r == !wf_word_nonempty_part(s@),
{
    let mut i: usize = 0;
    while i < s.len()
        invariant
            i <= s@.len(),
            forall|k: int| 0 <= k < i ==> !is_space(s@[k]),
        decreases s@.len() - i,
    {
        let c = s[i];
        if c == ' ' || c == '\t' || c == '\r' || c == '\n' {
            return true;
        }
        i = i + 1;
    }
    false
}

/// All characters are non-whitespace (emptiness is checked apart).
pub open spec fn wf_word_nonempty_part(s: Seq<char>) -> bool {
    forall|k: int| 0 <= k < s.len() ==> !is_space(s[k])
}

/// True when `s` contains `c`.
fn has_char(s: &Vec<char>, c: char) -> (r: bool)
    ensures
        r == contains_char(s@, c),
{
    let mut i: usize = 0;
    while i < s.len()
        invariant
            i <= s@.len(),
            forall|k: int| 0 <= k < i ==> s@[k] != c,
        decreases s@.len() - i,
    {
        if s[i] == c {
            return true;
        }
        i = i + 1;
    }
    proof {
        if contains_char(s@, c) {
            let k = choose|k: int| 0 <= k < s@.len() && s@[k] == c;
        }
    }
    false
}

/// Copies one string.
pub fn clone_string(s: &String) -> (r: String)
    ensures
        r@ == s@,
{
    let c = to_chars(s.as_str());
    chars_to_string(&c)
}

/// Copies a line vector.
pub fn clone_lines(lines: &Vec<String>) -> (r: Vec<String>)
    ensures
        r@.map_values(|s: String| s@) == lines@.map_values(|s: String| s@),
        r@.len() == lines@.len(),
{
    let mut out: Vec<String> = Vec::new();
    let mut i: usize = 0;
    while i < lines.len()
        invariant
            i <= lines@.len(),
            out@.map_values(|s: String| s@) == lines@.map_values(|s: String| s@).take(i as int),
        decreases lines@.len() - i,
    {
        let ghost before = out@.map_values(|s: String| s@);
        out.push(clone_string(&lines[i]));
        proof {
            assert(out@.map_values(|s: String| s@) =~= before.push(lines@[i as int]@));
            assert(lines@.map_values(|s: String| s@).take(i as int + 1) =~= lines@.map_values(
                |s: String| s@,
            ).take(i as int).push(lines@[i as int]@));
        }
        i = i + 1;
    }
    proof {
        assert(lines@.map_values(|s: String| s@).take(lines@.len() as int) =~= lines@.map_values(
            |s: String| s@,
        ));
    }
    out
}

} // verus!
