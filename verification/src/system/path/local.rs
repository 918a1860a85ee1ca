//! The locations of one user, below the home directory that the caller
//! found in the environment.

use crate::text::{chars_of, extend_str, string_of};
use crate::www::path_join;
use vstd::prelude::*;

verus! {

/// The home directory: the one that the environment names, or
/// `/home/{username}` where it names none.
pub open spec fn home_of(home: Option<Seq<char>>, username: Seq<char>) -> Seq<char> {
    match home {
        Some(h) => h,
        None => "/home/"@ + username,
    }
}

/// The home directory of the user.
pub fn home_dir(home: Option<&str>, username: &str) -> (r: String)
    ensures
        r@ == home_of(
            match home {
                Some(h) => Some(h@),
                None => None,
            },
            username@,
        ),
{
    match home {
        Some(h) => string_of(&chars_of(h)),
        None => {
            let mut out = chars_of("/home/");
            extend_str(&mut out, username);
            string_of(&out)
        },
    }
}

fn below(dir: &str, name: &str) -> (r: String)
    ensures
        r@ == path_join(dir@, name@),
{
    let d = chars_of(dir);
    let n = chars_of(name);
    if n.len() > 0 && n[0] == '/' {
        return string_of(&n);
    }
    let mut out = chars_of(dir);
    if !(d.len() == 0 || d[d.len() - 1] == '/') {
        out.push('/');
        extend_str(&mut out, name);
        assert(out@ =~= dir@ + seq!['/'] + name@);
    } else {
        extend_str(&mut out, name);
    }
    string_of(&out)
}

/// The directory of the package manager below the home directory.
pub fn ipm_dir(home: &str) -> (r: String)
    ensures
        r@ == path_join(home@, ".ipm"@),
{
    below(home, ".ipm")
}

/// The source list of the user.
pub fn repo_list_path(home: &str) -> (r: String)
    ensures
        r@ == path_join(path_join(home@, ".ipm"@), "repos.repo"@),
{
    let dir = ipm_dir(home);
    below(dir.as_str(), "repos.repo")
}

/// The directory in which the user's packages are unpacked for conversion.
pub fn cache_dir(home: &str) -> (r: String)
    ensures
        r@ == path_join(path_join(home@, ".ipm"@), "cache"@),
{
    let dir = ipm_dir(home);
    below(dir.as_str(), "cache")
}

} // verus!
