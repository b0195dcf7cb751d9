//! Parser for `.tags` source lines.
//!
//! A tag line has the shape `- <name>: <value>[, <value>...]`.
//! Whitespace around the name, the colon and each value is ignored;
//! blank lines and lines whose trimmed content starts with `#` are
//! comments. `validate_tag` checks one line, and
//! `get_name_and_values_from_tag` extracts the (name, values) pair;
//! neither lowercases, that is the vocabulary store's step.

use vstd::prelude::*;
use crate::error::RulesError;
use crate::strutil::{
    contains_char,
    find_char,
    is_space,
    lower,
    split_char,
    split_on,
    sub_vec,
    to_chars,
    trim,
    trim_chars,
    chars_to_string,
    lemma_find_index_is,
    lemma_no_char_subrange,
    lemma_no_char_trim,
    lemma_split_char_props,
    lemma_split_pieces_no_char,
    lemma_split_single,
    lemma_split_two,
    lemma_trim_exact,
};
use crate::types::{Tag, wf_word};

verus! {

/// A line that carries no tag: blank, or a `#` comment.
pub open spec fn line_blank_or_comment(line: Seq<char>) -> bool {
    trim(line).len() == 0 || trim(line)[0] == '#'
}

/// Exec check for blank and comment lines.
pub fn line_blank_or_comment_exec(line: &Vec<char>) -> (r: bool)
    ensures
        r == line_blank_or_comment(line@),
{
    let t = trim_chars(line);
    t.len() == 0 || t[0] == '#'
}

/// The name segment of a tag line is well-formed: after trimming it
/// begins with `-`, and what follows the dash trims to a word.
pub open spec fn spec_name_seg_ok(seg: Seq<char>) -> bool {
    let t = trim(seg);
    t.len() > 0 && t[0] == '-' && wf_word(trim(t.drop_first()))
}

/// Every comma-separated piece of the value segment trims to a word.
pub open spec fn spec_values_ok(seg: Seq<char>) -> bool {
    let ps = split_char(seg, ',');
    forall|i: int| 0 <= i < ps.len() ==> wf_word(trim(#[trigger] ps[i]))
}

/// A syntactically valid tag line: exactly one colon, a `-`-prefixed
/// whitespace-free name, and whitespace-free non-empty values.
pub open spec fn spec_tag_line_ok(line: Seq<char>) -> bool {
    let parts = split_char(line, ':');
    &&& parts.len() == 2
    &&& spec_name_seg_ok(parts[0])
    &&& spec_values_ok(parts[1])
}

/// The name carried by a valid tag line.
pub open spec fn spec_tag_name(line: Seq<char>) -> Seq<char> {
    trim(trim(split_char(line, ':')[0]).drop_first())
}

/// The values carried by a valid tag line, in order of appearance.
pub open spec fn spec_tag_values(line: Seq<char>) -> Seq<Seq<char>> {
    split_char(split_char(line, ':')[1], ',').map_values(|p: Seq<char>| trim(p))
}

/// Checks one line of a `.tags` source. Blank and comment lines are
/// accepted unconditionally; any other line must be a valid tag line:
/// it fails when there is no colon or more than one, when the name
/// segment does not begin with `-`, and when the name or any
/// comma-separated value is empty or contains whitespace.
pub fn validate_tag(line: &str) -> (r: Result<(), RulesError>)
    ensures
        r is Ok <==> line_blank_or_comment(line@) || spec_tag_line_ok(line@),
        r is Err ==> r->Err_0 is TagParseError,
{
    let chars = to_chars(line);
    if line_blank_or_comment_exec(&chars) {
        return Ok(());
    }
    validate_tag_line(&chars)
}

/// Core per-line check, without the blank/comment shortcut.
fn validate_tag_line(chars: &Vec<char>) -> (r: Result<(), RulesError>)
    ensures
        r is Ok <==> spec_tag_line_ok(chars@),
        r is Err ==> r->Err_0 is TagParseError,
{
    let parts = split_on(chars, ':');
    proof {
        assert(parts@.map_values(|p: Vec<char>| p@).len() == parts@.len());
    }
    if parts.len() < 2 {
        return Err(
            RulesError::TagParseError(String::from_str("Tag must contain a ':' separator")),
        );
    }
    let mut bad = false;
    if parts.len() > 2 {
        bad = true;
    }
    let ghost gparts = parts@.map_values(|p: Vec<char>| p@);
    let mut msg = String::new();
    if bad {
        msg.append(
            "Tag must only contain one name and one set of values. Ensure there is only one semi-colon. ",
        );
    }
    // Name segment checks.
    proof {
        assert(gparts[0] == parts@[0]@);
    }
    let tname = trim_chars(&parts[0]);
    let mut name_ok = true;
    if tname.len() == 0 || tname[0] != '-' {
        name_ok = false;
        msg.append("Tag must begin with '-'. ");
    } else {
        let after = sub_vec(&tname, 1, tname.len());
        proof {
            assert(after@ =~= trim(gparts[0]).drop_first());
        }
        let name = trim_chars(&after);
        if name.len() == 0 {
            name_ok = false;
            msg.append("Tag name cannot be empty. ");
        } else {
            if has_space(&name) {
                name_ok = false;
                msg.append("Tag name cannot contain spaces. ");
            }
        }
    }
    proof {
        assert(name_ok == spec_name_seg_ok(gparts[0]));
    }
    // Value segment checks.
    proof {
        assert(gparts[1] == parts@[1]@);
    }
    let values_ok = check_values(&parts[1], &mut msg);
    if bad || !name_ok || !values_ok {
        return Err(RulesError::TagParseError(msg));
    }
    Ok(())
}

/// True when some character of `s` is whitespace.
fn has_space(s: &Vec<char>) -> (r: bool)
    ensures
        r == !(forall|k: int| 0 <= k < s@.len() ==> !is_space(s@[k])),
{
    let mut i: usize = 0;
    while i < s.len()
        invariant
            i <= s@.len(),
            forall|k: int| 0 <= k < i ==> !is_space(s@[k]),
        decreases s@.len() - i,
    {
        if is_space_at(s, i) {
            return true;
        }
        i = i + 1;
    }
    false
}

#[inline]
fn is_space_at(s: &Vec<char>, i: usize) -> (r: bool)
    requires
        i < s@.len(),
    ensures
        r == is_space(s@[i as int]),
{
    let c = s[i];
    c == ' ' || c == '\t' || c == '\r' || c == '\n'
}

/// Checks every comma-separated piece of the value segment, recording
/// messages for the failures found.
fn check_values(seg: &Vec<char>, msg: &mut String) -> (r: bool)
    ensures
        r == spec_values_ok(seg@),
{
    let pieces = split_on(seg, ',');
    let ghost gp = split_char(seg@, ',');
    let mut ok = true;
    let mut empty_noted = false;
    let mut space_noted = false;
    let mut i: usize = 0;
    while i < pieces.len()
        invariant
            i <= pieces@.len(),
            pieces@.map_values(|p: Vec<char>| p@) == gp,
            ok == (forall|k: int| 0 <= k < i ==> wf_word(trim(#[trigger] gp[k]))),
        decreases pieces@.len() - i,
    {
        proof {
            assert(gp[i as int] == pieces@[i as int]@);
        }
        let t = trim_chars(&pieces[i]);
        if t.len() == 0 {
            ok = false;
            if !empty_noted {
                empty_noted = true;
                msg.append("Tag values cannot be empty. ");
            }
        } else if has_space(&t) {
            ok = false;
            if !space_noted {
                space_noted = true;
                msg.append("Tag values cannot contain spaces. ");
            }
        }
        i = i + 1;
    }
    proof {
        assert(pieces@.len() == gp.len());
    }
    ok
}

/// The `, `-separated tail of a serialized value list.
pub open spec fn tail_join(vs: Seq<Seq<char>>) -> Seq<char>
    decreases vs.len(),
{
    if vs.len() == 0 {
        Seq::empty()
    } else {
        seq![',', ' '] + vs[0] + tail_join(vs.drop_first())
    }
}

/// Values joined with `, `.
pub open spec fn join_values(vs: Seq<Seq<char>>) -> Seq<char> {
    if vs.len() == 0 {
        Seq::empty()
    } else {
        vs[0] + tail_join(vs.drop_first())
    }
}

/// The serialized form of a tag: `- name: v1, v2, ...`.
pub open spec fn spec_serialize_tag(name: Seq<char>, vs: Seq<Seq<char>>) -> Seq<char> {
    seq!['-', ' '] + name + seq![':', ' '] + join_values(vs)
}

/// Appends the characters of `src` to `dst`.
fn extend_chars(dst: &mut Vec<char>, src: &Vec<char>)
    ensures
        final(dst)@ == old(dst)@ + src@,
{
    let mut i: usize = 0;
    while i < src.len()
        invariant
            i <= src@.len(),
            dst@ == old(dst)@ + src@.take(i as int),
        decreases src@.len() - i,
    {
        dst.push(src[i]);
        proof {
            assert(dst@ =~= old(dst)@ + src@.take(i as int + 1));
        }
        i = i + 1;
    }
    proof {
        assert(old(dst)@ + src@.take(src@.len() as int) =~= old(dst)@ + src@);
    }
}

/// Builds the `, `-joined form of a value list, as characters.
pub fn join_values_exec(vs: &Vec<String>) -> (r: Vec<char>)
    ensures
        r@ == join_values(vs@.map_values(|v: String| v@)),
{
    let ghost gvs = vs@.map_values(|v: String| v@);
    let mut out: Vec<char> = Vec::new();
    if vs.len() == 0 {
        return out;
    }
    let first = to_chars(vs[0].as_str());
    extend_chars(&mut out, &first);
    proof {
        assert(out@ =~= gvs[0]);
    }
    let mut i: usize = 1;
    while i < vs.len()
        invariant
            gvs == vs@.map_values(|v: String| v@),
            1 <= i <= gvs.len(),
            out@ == gvs[0] + tail_join(gvs.subrange(1, i as int)),
        decreases vs@.len() - i,
    {
        out.push(',');
        out.push(' ');
        let piece = to_chars(vs[i].as_str());
        extend_chars(&mut out, &piece);
        proof {
            lemma_tail_join_push(gvs.subrange(1, i as int), gvs[i as int]);
            assert(gvs.subrange(1, i as int).push(gvs[i as int]) =~= gvs.subrange(1, i as int + 1));
            assert(out@ =~= gvs[0] + tail_join(gvs.subrange(1, i as int + 1)));
        }
        i = i + 1;
    }
    proof {
        assert(gvs.subrange(1, gvs.len() as int) =~= gvs.drop_first());
        assert(out@ =~= join_values(gvs));
    }
    out
}

/// Appending a value appends `, value` to the joined tail.
proof fn lemma_tail_join_push(vs: Seq<Seq<char>>, w: Seq<char>)
    ensures
        tail_join(vs.push(w)) == tail_join(vs) + (seq![',', ' '] + w),
    decreases vs.len(),
{
    assert(vs.push(w).len() == vs.len() + 1);
    assert(tail_join(vs.push(w)) == seq![',', ' '] + vs.push(w)[0] + tail_join(
        vs.push(w).drop_first(),
    ));
    if vs.len() == 0 {
        assert(vs.push(w).drop_first() =~= Seq::<Seq<char>>::empty());
        assert(vs.push(w)[0] == w);
        assert(tail_join(vs.push(w)) =~= tail_join(vs) + (seq![',', ' '] + w));
    } else {
        lemma_tail_join_push(vs.drop_first(), w);
        assert(vs.push(w).drop_first() =~= vs.drop_first().push(w));
        assert(vs.push(w)[0] == vs[0]);
        assert(tail_join(vs.push(w)) =~= tail_join(vs) + (seq![',', ' '] + w));
    }
}

/// Serializes a tag to its line form `- name: v1, v2, ...`.
pub fn serialize_tag(name: &str, values: &Vec<String>) -> (r: String)
    ensures
        r@ == spec_serialize_tag(name@, values@.map_values(|v: String| v@)),
{
    let mut out: Vec<char> = Vec::new();
    out.push('-');
    out.push(' ');
    let name_chars = to_chars(name);
    extend_chars(&mut out, &name_chars);
    out.push(':');
    out.push(' ');
    let joined = join_values_exec(values);
    extend_chars(&mut out, &joined);
    proof {
        assert(out@ =~= spec_serialize_tag(name@, values@.map_values(|v: String| v@)));
    }
    chars_to_string(&out)
}

/// The joined tail holds no character that neither `,`, ` ` nor any
/// value holds.
proof fn lemma_tail_join_no_char(vs: Seq<Seq<char>>, d: char)
    requires
        d != ',',
        d != ' ',
        forall|j: int| 0 <= j < vs.len() ==> !contains_char(#[trigger] vs[j], d),
    ensures
        !contains_char(tail_join(vs), d),
    decreases vs.len(),
{
    if vs.len() > 0 {
        assert forall|j: int| 0 <= j < vs.drop_first().len() implies !contains_char(
            #[trigger] vs.drop_first()[j],
            d,
        ) by {
            assert(vs.drop_first()[j] == vs[j + 1]);
        }
        lemma_tail_join_no_char(vs.drop_first(), d);
        if contains_char(tail_join(vs), d) {
            let k = choose|k: int|
                0 <= k < tail_join(vs).len() && #[trigger] tail_join(vs)[k] == d;
            if 2 <= k < 2 + vs[0].len() {
                assert(vs[0][k - 2] == d);
            }
            if k >= 2 + vs[0].len() {
                assert(tail_join(vs.drop_first())[k - 2 - vs[0].len()] == d);
            }
        }
    }
}

/// Splitting `pre` followed by a joined tail on `,` yields `pre` and
/// then each value with its separating space.
proof fn lemma_split_tail(pre: Seq<char>, vs: Seq<Seq<char>>)
    requires
        !contains_char(pre, ','),
        forall|j: int| 0 <= j < vs.len() ==> !contains_char(#[trigger] vs[j], ','),
    ensures
        split_char(pre + tail_join(vs), ',') == seq![pre] + Seq::new(
            vs.len(),
            |i: int| seq![' '] + vs[i],
        ),
    decreases vs.len(),
{
    if vs.len() == 0 {
        assert(pre + tail_join(vs) =~= pre);
        lemma_split_single(pre, ',');
        assert(seq![pre] + Seq::new(0, |i: int| seq![' '] + vs[i]) =~= seq![pre]);
    } else {
        let s = pre + tail_join(vs);
        let p = pre.len() as int;
        assert(s[p] == ',');
        assert forall|k: int| 0 <= k < p implies s[k] != ',' by {
            assert(s[k] == pre[k]);
            if pre[k] == ',' {
                assert(contains_char(pre, ','));
            }
        }
        lemma_find_index_is(s, ',', p);
        let pre2 = seq![' '] + vs[0];
        assert(s.skip(p + 1) =~= pre2 + tail_join(vs.drop_first()));
        assert(!contains_char(pre2, ',')) by {
            if contains_char(pre2, ',') {
                let k = choose|k: int| 0 <= k < pre2.len() && #[trigger] pre2[k] == ',';
                assert(vs[0][k - 1] == ',');
            }
        }
        assert forall|j: int| 0 <= j < vs.drop_first().len() implies !contains_char(
            #[trigger] vs.drop_first()[j],
            ',',
        ) by {
            assert(vs.drop_first()[j] == vs[j + 1]);
        }
        lemma_split_tail(pre2, vs.drop_first());
        assert(s.take(p) =~= pre);
        assert(split_char(s, ',') == seq![pre] + split_char(s.skip(p + 1), ','));
        assert(split_char(s, ',') =~= seq![pre] + Seq::new(vs.len(), |i: int| seq![' '] + vs[i]))
            by {
            assert(split_char(s.skip(p + 1), ',') == seq![pre2] + Seq::new(
                vs.drop_first().len(),
                |i: int| seq![' '] + vs.drop_first()[i],
            ));
            assert forall|k: int|
                0 <= k < split_char(s, ',').len() implies #[trigger] split_char(s, ',')[k] == (seq![
                pre,
            ] + Seq::new(vs.len(), |i: int| seq![' '] + vs[i]))[k] by {
                if k >= 2 {
                    assert(split_char(s.skip(p + 1), ',')[k - 1] == Seq::new(
                        vs.drop_first().len(),
                        |i: int| seq![' '] + vs.drop_first()[i],
                    )[k - 2]);
                    assert(vs.drop_first()[k - 2] == vs[k - 1]);
                }
            }
        }
    }
}

/// A serialized tag parses back to exactly its name and values:
/// idempotence of the tag format, for well-formed names and values.
pub proof fn lemma_serialize_tag_parses(name: Seq<char>, vs: Seq<Seq<char>>)
    requires
        wf_word(name),
        !contains_char(name, ':'),
        vs.len() >= 1,
        forall|j: int|
            0 <= j < vs.len() ==> wf_word(#[trigger] vs[j]) && !contains_char(vs[j], ':')
                && !contains_char(vs[j], ','),
    ensures
        spec_tag_line_ok(spec_serialize_tag(name, vs)),
        spec_tag_name(spec_serialize_tag(name, vs)) == name,
        spec_tag_values(spec_serialize_tag(name, vs)) == vs,
{
    let ser = spec_serialize_tag(name, vs);
    let seg0 = seq!['-', ' '] + name;
    let seg1 = seq![' '] + join_values(vs);
    let p = seg0.len() as int;
    // Exactly one colon, right after the name.
    assert(ser[p + 1 - 1] == ':');
    assert forall|k: int| 0 <= k < ser.len() && k != p implies ser[k] != ':' by {
        if k < p {
            if k >= 2 {
                assert(ser[k] == name[k - 2]);
                if name[k - 2] == ':' {
                    assert(contains_char(name, ':'));
                }
            }
        } else {
            assert(ser[k] == seg1[k - p - 1]);
            if k == p + 1 {
            } else {
                assert(join_values(vs)[k - p - 2] == ser[k]);
                assert(join_values(vs) == vs[0] + tail_join(vs.drop_first()));
                assert forall|j: int| 0 <= j < vs.drop_first().len() implies !contains_char(
                    #[trigger] vs.drop_first()[j],
                    ':',
                ) by {
                    assert(vs.drop_first()[j] == vs[j + 1]);
                }
                lemma_tail_join_no_char(vs.drop_first(), ':');
                if ser[k] == ':' {
                    let q = k - p - 2;
                    if q < vs[0].len() {
                        assert(vs[0][q] == ':');
                    } else {
                        assert(tail_join(vs.drop_first())[q - vs[0].len()] == ':');
                    }
                }
            }
        }
    }
    lemma_split_two(ser, ':', p);
    assert(ser.take(p) =~= seg0);
    assert(ser.skip(p + 1) =~= seg1);
    let parts = split_char(ser, ':');
    assert(parts.len() == 2 && parts[0] == seg0 && parts[1] == seg1);
    // The name segment trims to `- name`, then to `name`.
    assert(trim(seg0) == seg0) by {
        lemma_trim_exact(seg0, 0, seg0.len() as int);
    }
    assert(seg0.drop_first() =~= seq![' '] + name);
    assert(trim(seq![' '] + name) == name) by {
        lemma_trim_exact(seq![' '] + name, 1, (seq![' '] + name).len() as int);
        assert((seq![' '] + name).subrange(1, (seq![' '] + name).len() as int) =~= name);
    }
    assert(spec_name_seg_ok(seg0));
    assert(spec_tag_name(ser) == name);
    // The value segment splits into the values, each space-prefixed.
    assert(seg1 =~= (seq![' '] + vs[0]) + tail_join(vs.drop_first())) by {
        assert(join_values(vs) == vs[0] + tail_join(vs.drop_first()));
    }
    assert(!contains_char(seq![' '] + vs[0], ',')) by {
        if contains_char(seq![' '] + vs[0], ',') {
            let k = choose|k: int|
                0 <= k < (seq![' '] + vs[0]).len() && #[trigger] (seq![' '] + vs[0])[k] == ',';
            assert(vs[0][k - 1] == ',');
        }
    }
    assert forall|j: int| 0 <= j < vs.drop_first().len() implies !contains_char(
        #[trigger] vs.drop_first()[j],
        ',',
    ) by {
        assert(vs.drop_first()[j] == vs[j + 1]);
    }
    lemma_split_tail(seq![' '] + vs[0], vs.drop_first());
    let pieces = split_char(seg1, ',');
    assert(pieces =~= Seq::new(vs.len(), |i: int| seq![' '] + vs[i])) by {
        assert(pieces == seq![seq![' '] + vs[0]] + Seq::new(
            vs.drop_first().len(),
            |i: int| seq![' '] + vs.drop_first()[i],
        ));
        assert forall|k: int| 0 <= k < vs.len() implies #[trigger] pieces[k] == seq![' ']
            + vs[k] by {
            if k > 0 {
                assert(pieces[k] == seq![' '] + vs.drop_first()[k - 1]);
                assert(vs.drop_first()[k - 1] == vs[k]);
            }
        }
    }
    assert forall|i: int| 0 <= i < pieces.len() implies trim(#[trigger] pieces[i]) == vs[i]
        && wf_word(trim(pieces[i])) by {
        lemma_trim_exact(pieces[i], 1, pieces[i].len() as int);
        assert(pieces[i].subrange(1, pieces[i].len() as int) =~= vs[i]);
    }
    assert(spec_values_ok(seg1));
    assert(spec_tag_line_ok(ser));
    assert(spec_tag_values(ser) =~= vs) by {
        assert(spec_tag_values(ser).len() == pieces.len());
        assert forall|i: int| 0 <= i < vs.len() implies #[trigger] spec_tag_values(ser)[i]
            == vs[i] by {
            assert(spec_tag_values(ser)[i] == trim(pieces[i]));
        }
    }
}

/// Parsing, serializing, and parsing again yields the same (name,
/// values) pair for every syntactically valid tag line: the tag
/// format is idempotent.
pub proof fn lemma_tag_format_idempotent(line: Seq<char>)
    requires
        spec_tag_line_ok(line),
    ensures
        spec_tag_line_ok(spec_serialize_tag(spec_tag_name(line), spec_tag_values(line))),
        spec_tag_name(spec_serialize_tag(spec_tag_name(line), spec_tag_values(line)))
            == spec_tag_name(line),
        spec_tag_values(spec_serialize_tag(spec_tag_name(line), spec_tag_values(line)))
            == spec_tag_values(line),
{
    let name = spec_tag_name(line);
    let vs = spec_tag_values(line);
    let parts = split_char(line, ':');
    lemma_split_char_props(line, ':');
    // The name has no colon: it sits inside the first split piece.
    assert(!contains_char(name, ':')) by {
        assert(!contains_char(parts[0], ':'));
        lemma_no_char_trim(parts[0], ':');
        let t = trim(parts[0]);
        assert(t.drop_first() =~= t.subrange(1, t.len() as int));
        lemma_no_char_subrange(t, ':', 1, t.len() as int);
        lemma_no_char_trim(t.drop_first(), ':');
    }
    // Each value has neither comma nor colon.
    let pieces = split_char(parts[1], ',');
    lemma_split_char_props(parts[1], ',');
    lemma_split_pieces_no_char(parts[1], ',', ':');
    assert(vs.len() == pieces.len());
    assert forall|j: int| 0 <= j < vs.len() implies wf_word(#[trigger] vs[j]) && !contains_char(
        vs[j],
        ':',
    ) && !contains_char(vs[j], ',') by {
        assert(vs[j] == trim(pieces[j]));
        assert(wf_word(trim(pieces[j])));
        lemma_no_char_trim(pieces[j], ':');
        lemma_no_char_trim(pieces[j], ',');
    }
    lemma_serialize_tag_parses(name, vs);
}

/// The (name, values) pairs carried by a sequence of lines, in order,
/// comments and blanks skipped.
pub open spec fn tags_of_lines(lines: Seq<Seq<char>>) -> Seq<(Seq<char>, Seq<Seq<char>>)>
    decreases lines.len(),
{
    if lines.len() == 0 {
        Seq::empty()
    } else {
        tags_of_lines(lines.drop_last()) + (if line_blank_or_comment(lines.last()) {
            Seq::empty()
        } else {
            seq![(spec_tag_name(lines.last()), spec_tag_values(lines.last()))]
        })
    }
}

/// Every line of the sequence is a comment, blank, or a valid tag line.
pub open spec fn lines_ok(lines: Seq<Seq<char>>) -> bool {
    forall|k: int|
        0 <= k < lines.len() ==> line_blank_or_comment(#[trigger] lines[k]) || spec_tag_line_ok(
            lines[k],
        )
}

/// The tag pairs carried by several sources, each split into lines.
pub open spec fn tags_of_sources(srcs: Seq<Seq<char>>) -> Seq<(Seq<char>, Seq<Seq<char>>)>
    decreases srcs.len(),
{
    if srcs.len() == 0 {
        Seq::empty()
    } else {
        tags_of_sources(srcs.drop_last()) + tags_of_lines(split_char(srcs.last(), '\n'))
    }
}

/// Every line of every source parses.
pub open spec fn sources_ok(srcs: Seq<Seq<char>>) -> bool {
    forall|i: int| 0 <= i < srcs.len() ==> lines_ok(split_char(#[trigger] srcs[i], '\n'))
}

/// Parses every tag line of every source, in order; fails on the
/// first line that is neither blank, nor a comment, nor a valid tag
/// line. Names and values keep their case.
pub fn parse_tags(sources: &Vec<String>) -> (r: Result<Vec<Tag>, RulesError>)
    ensures
        r is Ok <==> sources_ok(sources@.map_values(|s: String| s@)),
        r is Ok ==> ({
            let ts = tags_of_sources(sources@.map_values(|s: String| s@));
            &&& r->Ok_0@.len() == ts.len()
            &&& forall|k: int|
                0 <= k < ts.len() ==> (#[trigger] r->Ok_0@[k].name)@ == ts[k].0
                    && r->Ok_0@[k].values@.map_values(|v: String| v@) == ts[k].1
        }),
        r is Err ==> r->Err_0 is TagParseError,
{
    let ghost gsrcs = sources@.map_values(|s: String| s@);
    let mut tags: Vec<Tag> = Vec::new();
    let mut i: usize = 0;
    while i < sources.len()
        invariant
            gsrcs == sources@.map_values(|s: String| s@),
            i <= gsrcs.len(),
            forall|i2: int| 0 <= i2 < i ==> lines_ok(split_char(#[trigger] gsrcs[i2], '\n')),
            ({
                let ts = tags_of_sources(gsrcs.take(i as int));
                &&& tags@.len() == ts.len()
                &&& forall|k: int|
                    0 <= k < ts.len() ==> (#[trigger] tags@[k].name)@ == ts[k].0
                        && tags@[k].values@.map_values(|v: String| v@) == ts[k].1
            }),
        decreases sources@.len() - i,
    {
        let chars = to_chars(sources[i].as_str());
        proof {
            assert(gsrcs[i as int] == sources@[i as int]@);
        }
        let lines = split_on(&chars, '\n');
        let ghost glines = split_char(gsrcs[i as int], '\n');
        let mut j: usize = 0;
        while j < lines.len()
            invariant
                gsrcs == sources@.map_values(|s: String| s@),
                i < gsrcs.len(),
                glines == split_char(gsrcs[i as int], '\n'),
                glines == lines@.map_values(|l: Vec<char>| l@),
                j <= glines.len(),
                forall|j2: int|
                    0 <= j2 < j ==> line_blank_or_comment(#[trigger] glines[j2])
                        || spec_tag_line_ok(glines[j2]),
                ({
                    let ts = tags_of_sources(gsrcs.take(i as int)) + tags_of_lines(
                        glines.take(j as int),
                    );
                    &&& tags@.len() == ts.len()
                    &&& forall|k: int|
                        0 <= k < ts.len() ==> (#[trigger] tags@[k].name)@ == ts[k].0
                            && tags@[k].values@.map_values(|v: String| v@) == ts[k].1
                }),
            decreases lines@.len() - j,
        {
            proof {
                assert(glines[j as int] == lines@[j as int]@);
                assert(glines.take(j as int + 1).drop_last() =~= glines.take(j as int));
                assert(glines.take(j as int + 1).last() == glines[j as int]);
            }
            if line_blank_or_comment_exec(&lines[j]) {
                j = j + 1;
                continue;
            }
            let line_str = chars_to_string(&lines[j]);
            match get_name_and_values_from_tag(line_str.as_str()) {
                Ok((name, values)) => {
                    let ghost before = tags@;
                    tags.push(Tag { name, values });
                    proof {
                        let pair = (spec_tag_name(glines[j as int]), spec_tag_values(glines[j as int]));
                        let ts = tags_of_sources(gsrcs.take(i as int)) + tags_of_lines(
                            glines.take(j as int + 1),
                        );
                        let tsb = tags_of_sources(gsrcs.take(i as int)) + tags_of_lines(
                            glines.take(j as int),
                        );
                        assert(tags_of_lines(glines.take(j as int + 1)) == tags_of_lines(
                            glines.take(j as int),
                        ) + seq![pair]);
                        assert(ts =~= tsb.push(pair));
                        assert(tags@.len() == ts.len());
                        assert forall|k: int|
                            0 <= k < ts.len() implies (#[trigger] tags@[k].name)@ == ts[k].0
                            && tags@[k].values@.map_values(|v: String| v@) == ts[k].1 by {
                            if k < ts.len() - 1 {
                                assert(tags@[k] == before[k]);
                                assert(ts[k] == tsb[k]);
                            } else {
                                assert(ts[k] == pair);
                            }
                        }
                    }
                    j = j + 1;
                },
                Err(e) => {
                    proof {
                        assert(!lines_ok(glines)) by {
                            if lines_ok(glines) {
                                assert(line_blank_or_comment(glines[j as int])
                                    || spec_tag_line_ok(glines[j as int]));
                            }
                        }
                        assert(!sources_ok(gsrcs)) by {
                            if sources_ok(gsrcs) {
                                assert(lines_ok(split_char(gsrcs[i as int], '\n')));
                            }
                        }
                    }
                    return Err(e);
                },
            }
        }
        proof {
            assert(glines.take(glines.len() as int) =~= glines);
            assert(gsrcs.take(i as int + 1).drop_last() =~= gsrcs.take(i as int));
            assert(gsrcs.take(i as int + 1).last() == gsrcs[i as int]);
            assert(tags_of_sources(gsrcs.take(i as int + 1)) == tags_of_sources(gsrcs.take(i as int))
                + tags_of_lines(glines));
        }
        i = i + 1;
    }
    proof {
        assert(gsrcs.take(gsrcs.len() as int) =~= gsrcs);
    }
    Ok(tags)
}

/// Extracts the (name, values) pair from one tag line. Fails, as
/// `validate_tag` does, on any line that is not a valid tag line;
/// blank and comment lines carry no tag and fail too.
pub fn get_name_and_values_from_tag(line: &str) -> (r: Result<(String, Vec<String>), RulesError>)
    ensures
        r is Ok <==> spec_tag_line_ok(line@),
        r is Ok ==> (r->Ok_0.0)@ == spec_tag_name(line@) && (r->Ok_0.1)@.map_values(
            |v: String| v@,
        ) == spec_tag_values(line@),
        r is Err ==> r->Err_0 is TagParseError,
{
    let chars = to_chars(line);
    match validate_tag_line(&chars) {
        Err(e) => Err(e),
        Ok(()) => {
            let parts = split_on(&chars, ':');
            let ghost gparts = parts@.map_values(|p: Vec<char>| p@);
            proof {
                assert(gparts.len() == parts@.len());
                assert(gparts[0] == parts@[0]@);
                assert(gparts[1] == parts@[1]@);
            }
            let tname = trim_chars(&parts[0]);
            let after = sub_vec(&tname, 1, tname.len());
            proof {
                assert(after@ =~= trim(gparts[0]).drop_first());
            }
            let name_chars = trim_chars(&after);
            let name = chars_to_string(&name_chars);
            let pieces = split_on(&parts[1], ',');
            let ghost gp = split_char(gparts[1], ',');
            let mut values: Vec<String> = Vec::new();
            let mut i: usize = 0;
            while i < pieces.len()
                invariant
                    i <= pieces@.len(),
                    pieces@.map_values(|p: Vec<char>| p@) == gp,
                    values@.map_values(|v: String| v@) == gp.map_values(
                        |p: Seq<char>| trim(p),
                    ).take(i as int),
                decreases pieces@.len() - i,
            {
                proof {
                    assert(gp[i as int] == pieces@[i as int]@);
                }
                let t = trim_chars(&pieces[i]);
                let v = chars_to_string(&t);
                let ghost gv = v@;
                let ghost before = values@;
                values.push(v);
                proof {
                    let m1 = values@.map_values(|v: String| v@);
                    let m2 = gp.map_values(|p: Seq<char>| trim(p));
                    assert(before.map_values(|v: String| v@).len() == before.len());
                    assert(before.map_values(|v: String| v@) == m2.take(i as int));
                    assert(before.len() == i as int);
                    assert(values@ == before.push(v));
                    assert(m1.len() == i + 1);
                    assert(gv == trim(gp[i as int]));
                    assert forall|k: int| 0 <= k < i + 1 implies m1[k] == m2.take(
                        i as int + 1,
                    )[k] by {
                        assert(m1[k] == values@[k]@);
                        if k < i {
                            assert(values@[k] == before[k]);
                            assert(before.map_values(|v: String| v@)[k] == before[k]@);
                            assert(before.map_values(|v: String| v@)[k] == m2.take(i as int)[k]);
                        } else {
                            assert(values@[k]@ == gv);
                        }
                    }
                    assert(m1 =~= m2.take(i as int + 1));
                }
                i = i + 1;
            }
            proof {
                assert(pieces@.len() == gp.len());
                assert(gp.map_values(|p: Seq<char>| trim(p)).take(gp.len() as int) =~= gp.map_values(
                    |p: Seq<char>| trim(p),
                ));
            }
            Ok((name, values))
        },
    }
}

} // verus!
