//! Joining relative path components onto a directory, with `/` separators.

use vstd::prelude::*;

verus! {

/// `part` appended to `base` as a path: an absolute `part` stands alone, an
/// empty `base` gives `part`, and a separator is put between the two unless
/// `base` already ends with one.
pub open spec fn joined(base: Seq<char>, part: Seq<char>) -> Seq<char> {
    if part.len() > 0 && part[0] == '/' {
        part
    } else if base.len() == 0 {
        part
    } else if base.last() == '/' {
        base + part
    } else {
        base + seq!['/'] + part
    }
}

/// Join `part` onto the directory `base`.
pub fn join_path(base: &str, part: &str) -> (r: String)
    ensures
        r@ == joined(base@, part@),
{
    let part_len = part.unicode_len();
    let base_len = base.unicode_len();
    if part_len > 0 && part.get_char(0) == '/' {
        return String::from_str(part);
    }
    if base_len == 0 {
        return String::from_str(part);
    }
    let mut out = String::from_str(base);
    if base.get_char(base_len - 1) != '/' {
        out.append("/");
        proof {
            reveal_strlit("/");
        }
    }
    out.append(part);
    out
}

/// The name of a file: `stem` followed by `.` and `extension`.
pub open spec fn file_name(stem: Seq<char>, extension: Seq<char>) -> Seq<char> {
    stem + seq!['.'] + extension
}

/// Build the file name `stem.extension`.
pub fn make_file_name(stem: &str, extension: &str) -> (r: String)
    ensures
        r@ == file_name(stem@, extension@),
{
    let mut out = String::from_str(stem);
    out.append(".");
    proof {
        reveal_strlit(".");
    }
    out.append(extension);
    out
}

} // verus!
