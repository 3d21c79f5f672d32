//! Relative file-system paths held as strings, joined as `PathBuf::push` does on Unix.

use vstd::prelude::*;
use vstd::string::*;

verus! {

/// The path that `base.join(part)` denotes on Unix: an absolute `part` replaces
/// `base`; otherwise a `/` is put between them unless `base` is empty or already
/// ends in `/`.
pub open spec fn joined(base: Seq<char>, part: Seq<char>) -> Seq<char> {
    if part.len() > 0 && part[0] == '/' {
        part
    } else if base.len() == 0 || base.last() == '/' {
        base + part
    } else {
        base + seq!['/'] + part
    }
}

/// Joins `part` onto `base` as a path.
pub fn join_path(base: &str, part: &str) -> (r: String)
    ensures
        r@ == joined(base@, part@),
{
    if !part.is_empty() && part.get_char(0) == '/' {
        return part.to_owned();
    }
    let n = base.unicode_len();
    let mut r = base.to_owned();
    if n != 0 && base.get_char(n - 1) != '/' {
        let sep = "/";
        proof {
            reveal_strlit("/");
        }
        r.append(sep);
    }
    r.append(part);
    r
}

} // verus!
