//! Paths.

use vstd::prelude::*;
use vstd::string::*;

verus! {

/// A file below a directory.
pub open spec fn below(dir: Seq<char>, name: Seq<char>) -> Seq<char> {
    dir + "/"@ + name
}

/// A file below a directory.
pub fn join_path(dir: &str, name: &str) -> (r: String)
    ensures
        r@ == below(dir@, name@),
{
    let mut r = dir.to_string();
    r.append("/");
    r.append(name);
    r
}

} // verus!
