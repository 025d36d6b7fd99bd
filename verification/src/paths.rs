//! File paths as text.

use vstd::prelude::*;
use crate::text::chars_of;

verus! {

/// The path of `name` seen from `base`: `name` itself where it starts at
/// the root, and else `base`, a slash unless `base` is empty or ends in
/// one, and `name`.
pub open spec fn path_joined(base: Seq<char>, name: Seq<char>) -> Seq<char> {
    if name.len() > 0 && name[0] == '/' {
        name
    } else if base.len() == 0 || base.last() == '/' {
        base + name
    } else {
        base + seq!['/'] + name
    }
}

/// The path of `name` seen from `base`.
pub fn join_path(base: &str, name: &str) -> (joined: String)
    ensures
        joined@ == path_joined(base@, name@),
{
    let start = chars_of(name);
    if start.len() > 0 && start[0] == '/' {
        return String::from_str(name);
    }
    let end = chars_of(base);
    let mut joined = String::from_str(base);
    if end.len() > 0 && end[end.len() - 1] != '/' {
        joined.push('/');
    }
    joined.append(name);
    proof {
        assert(joined@ =~= path_joined(base@, name@));
    }
    joined
}

/// Calls `dirs::home_dir`.
///
/// Trusted: nothing; the answer is the environment's. A home directory
/// whose path is no text counts as none.
#[verifier::external_body]
pub(crate) fn home_directory() -> (home: Option<String>) {
    dirs::home_dir().and_then(|path| path.to_str().map(|text| text.to_owned()))
}

} // verus!
