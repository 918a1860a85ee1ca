//! Where a served repository lies: the directory, at or above the working
//! directory, that holds `ipm/repo.yaml`.

use crate::error::{Error, ErrorKind, ErrorView};
use crate::text::{chars_of, extend_str, slice_of, str_views, string_of, trail, trail_start,
    CharClass};
use crate::www::path_join;
use vstd::prelude::*;

verus! {

/// The directory above `p`: `p` without its last name and the `/` before
/// it, or `/` where only that is left. A path that ends in `/`, the root
/// included, and a single name have none.
pub open spec fn parent_of(p: Seq<char>) -> Option<Seq<char>> {
    let n = trail(p, CharClass::Not('/').pred());
    let rest = p.take(p.len() - n);
    if n == 0 || rest.len() == 0 {
        None
    } else if rest.len() == 1 {
        Some(rest)
    } else {
        Some(rest.drop_last())
    }
}

/// The directories from `p` upwards: `p` itself, the one above it, and so
/// on as far as there is one.
pub open spec fn ancestors_of(p: Seq<char>) -> Seq<Seq<char>>
    decreases p.len(),
{
    match parent_of(p) {
        Some(q) => if q.len() < p.len() {
            seq![p] + ancestors_of(q)
        } else {
            seq![p]
        },
        None => seq![p],
    }
}

/// The first of the directories `dirs` that was found to hold the
/// repository file. `found[i]` tells of `dirs[i]`; a directory that was not
/// looked at counts as not holding it.
pub open spec fn located(dirs: Seq<Seq<char>>, found: Seq<bool>) -> Option<Seq<char>>
    decreases dirs.len(),
{
    if dirs.len() == 0 || found.len() == 0 {
        None
    } else if found[0] {
        Some(dirs[0])
    } else {
        located(dirs.drop_first(), found.drop_first())
    }
}

/// The error of a search that found no repository.
pub open spec fn no_repository() -> ErrorView {
    ErrorView {
        kind: ErrorKind::NotFound,
        message: "repo.yaml not found in current or parent directories"@,
        causes: Seq::empty(),
    }
}

fn parent(p: &Vec<char>) -> (r: Option<Vec<char>>)
    ensures
        match r {
            Some(q) => parent_of(p@) == Some(q@) && q.len() < p.len(),
            None => parent_of(p@) is None,
        },
{
    assert(p@.subrange(0, p.len() as int) == p@);
    let cut = trail_start(p, 0, p.len(), CharClass::Not('/'));
    assert(p@.take(cut as int) == p@.subrange(0, cut as int));
    if cut == p.len() || cut == 0 {
        None
    } else if cut == 1 {
        Some(slice_of(p, 0, 1))
    } else {
        let q = slice_of(p, 0, cut - 1);
        assert(q@ == p@.take(cut as int).drop_last());
        Some(q)
    }
}

/// The directories from `dir` upwards, in the order in which they are to
/// be looked at.
pub fn search_path(dir: &str) -> (out: Vec<String>)
    ensures
        str_views(out@) == ancestors_of(dir@),
{
    let mut out: Vec<String> = Vec::new();
    let mut cur = chars_of(dir);
    let ghost done: Seq<Seq<char>> = Seq::empty();
    assert(str_views(out@) =~= done);
    assert(done + ancestors_of(cur@) =~= ancestors_of(dir@));
    loop
        invariant
            str_views(out@) + ancestors_of(cur@) == ancestors_of(dir@),
        decreases cur.len(),
    {
        let here = string_of(&cur);
        let ghost before = str_views(out@);
        assert(str_views(out@.push(here)) =~= before.push(cur@));
        out.push(here);
        match parent(&cur) {
            Some(q) => {
                assert(before.push(cur@) + ancestors_of(q@) =~= before + ancestors_of(cur@));
                cur = q;
            },
            None => {
                assert(before.push(cur@) =~= before + ancestors_of(cur@));
                return out;
            },
        }
    }
}

/// The directory of the repository: the first of the directories from
/// `dir` upwards that holds `ipm/repo.yaml`, as `found` tells for each of
/// `search_path(dir)` in turn. Where none does the error is `NotFound`.
pub fn get_dir(dir: &str, found: &Vec<bool>) -> (r: Result<String, Error>)
    ensures
        match r {
            Ok(d) => located(ancestors_of(dir@), found@) == Some(d@),
            Err(e) => located(ancestors_of(dir@), found@) is None && e@ == no_repository(),
        },
{
    let dirs = search_path(dir);
    let ghost all = str_views(dirs@);
    let mut i: usize = 0;
    assert(all.skip(0) == all);
    assert(found@.skip(0) == found@);
    while i < dirs.len() && i < found.len()
        invariant
            i <= dirs.len(),
            i <= found.len(),
            all == str_views(dirs@),
            all == ancestors_of(dir@),
            located(all, found@) == located(all.skip(i as int), found@.skip(i as int)),
        decreases dirs.len() - i,
    {
        proof {
            let d = all.skip(i as int);
            let f = found@.skip(i as int);
            assert(d[0] == dirs@[i as int]@);
            assert(f[0] == found@[i as int]);
            assert(d.drop_first() == all.skip(i + 1));
            assert(f.drop_first() == found@.skip(i + 1));
        }
        if found[i] {
            return Ok(dirs[i].clone());
        }
        i = i + 1;
    }
    let e = Error::new(
        ErrorKind::NotFound,
        string_of(&chars_of("repo.yaml not found in current or parent directories")),
        Vec::new(),
    );
    assert(e@.causes =~= Seq::<Seq<char>>::empty());
    Err(e)
}

/// The repository file of the repository in `dir`.
pub fn get_path(dir: &str) -> (r: String)
    ensures
        r@ == path_join(dir@, "ipm/repo.yaml"@),
{
    let d = chars_of(dir);
    let mut out = chars_of(dir);
    proof {
        reveal_strlit("ipm/repo.yaml");
    }
    if !(d.len() == 0 || d[d.len() - 1] == '/') {
        out.push('/');
        extend_str(&mut out, "ipm/repo.yaml");
        assert(out@ =~= dir@ + seq!['/'] + "ipm/repo.yaml"@);
    } else {
        extend_str(&mut out, "ipm/repo.yaml");
    }
    string_of(&out)
}

} // verus!
