//! Content-level writer for object definition files.
//!
//! The object/type definition writer is a deliberate stub: it accepts
//! its arguments and leaves the file as it is.

use vstd::prelude::*;
use crate::error::RulesError;
use crate::strutil::{ends_with_chars, has_suffix, to_chars, chars_to_string};
use crate::tag_write::clone_lines;
use crate::types::Object;

verus! {

/// The `.yaml` file extension, as characters.
pub open spec fn yaml_ext() -> Seq<char> {
    seq!['.', 'y', 'a', 'm', 'l']
}

/// Appends the `.yaml` extension unless the name already has it.
pub fn normalise_filename(file_name: &str) -> (r: String)
    ensures
        r@ == if has_suffix(file_name@, yaml_ext()) {
            file_name@
        } else {
            file_name@ + yaml_ext()
        },
{
    let chars = to_chars(file_name);
    let mut ext: Vec<char> = Vec::new();
    ext.push('.');
    ext.push('y');
    ext.push('a');
    ext.push('m');
    ext.push('l');
    proof {
        assert(ext@ =~= yaml_ext());
    }
    if ends_with_chars(&chars, &ext) {
        chars_to_string(&chars)
    } else {
        let mut out = chars;
        out.push('.');
        out.push('y');
        out.push('a');
        out.push('m');
        out.push('l');
        proof {
            assert(out@ =~= file_name@ + yaml_ext());
        }
        chars_to_string(&out)
    }
}

/// Computes the new lines of an object file: currently the identity,
/// as the object writer does not persist anything yet.
pub fn write(existing: &Vec<String>, _obj_type: &str, _obj: &Object) -> (r: Result<
    Vec<String>,
    RulesError,
>)
    ensures
        r is Ok,
        (r->Ok_0)@.map_values(|s: String| s@) == existing@.map_values(|s: String| s@),
{
    Ok(clone_lines(existing))
}

} // verus!
