//! The locations that all users of a machine share.

use crate::text::{chars_of, string_of};
use vstd::prelude::*;

verus! {

/// The source list of the system.
pub fn repo_list_path() -> (r: String)
    ensures
        r@ == "/usr/ipm/repos.repo"@,
{
    string_of(&chars_of("/usr/ipm/repos.repo"))
}

/// The directory in which packages are unpacked for conversion.
pub fn cache_dir() -> (r: String)
    ensures
        r@ == "/var/cache/ipm"@,
{
    string_of(&chars_of("/var/cache/ipm"))
}

} // verus!
