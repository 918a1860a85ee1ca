//! Catalogs: the entries that a repository offers, with their author and
//! the moment at which they were assembled.

use crate::control::MaintainerView;
use crate::error::{Error, ErrorKind, ErrorView};
use crate::record::{Maintainer, PackageRecord, RecordView};
use crate::text::{chars_of, extend, extend_str, index_of, lead_end, lemma_index_of, position,
    slice_of, str_views, string_of, strip_start, CharClass};
use crate::www::{path_join, render, URL, UrlView};
use vstd::prelude::*;
use vstd::std_specs::iter::IteratorSpec;

verus! {

/// A moment in time: seconds since the start of 1970 in UTC, and the
/// nanoseconds since the last full second. The library never reads a clock:
/// every moment that it writes down is handed to it.
#[derive(Debug, Clone, Copy, PartialEq, Eq)]
pub struct Timestamp {
    pub seconds: i64,
    pub nanos: u32,
}

/// One entry of a catalog: a record, the absolute location of the package
/// file, and the moment at which the entry was last modified.
#[derive(Debug, Clone)]
pub struct PackageMetaData {
    pub last_modified: Timestamp,
    pub info: PackageRecord,
    pub url: String,
}

/// One entry of a catalog, as plain values.
pub struct MetaView {
    pub last_modified: Timestamp,
    pub info: RecordView,
    pub url: Seq<char>,
}

impl View for PackageMetaData {
    type V = MetaView;

    open spec fn view(&self) -> MetaView {
        MetaView { last_modified: self.last_modified, info: self.info@, url: self.url@ }
    }
}

/// The views of a sequence of entries.
pub open spec fn metas_view(v: Seq<PackageMetaData>) -> Seq<MetaView> {
    v.map_values(|m: PackageMetaData| m@)
}

/// A catalog: who publishes it, when it was last modified, and its entries
/// in the order of the source.
#[derive(Debug, Clone)]
pub struct RepoData {
    pub author: Maintainer,
    pub last_modified: Timestamp,
    pub packages: Vec<PackageMetaData>,
}

/// A catalog, as plain values.
pub struct RepoView {
    pub author: MaintainerView,
    pub last_modified: Timestamp,
    pub packages: Seq<MetaView>,
}

impl View for RepoData {
    type V = RepoView;

    open spec fn view(&self) -> RepoView {
        RepoView {
            author: self.author@,
            last_modified: self.last_modified,
            packages: metas_view(self.packages@),
        }
    }
}

/// The catalog without author and entries, as of `now`.
pub open spec fn empty_repo(now: Timestamp) -> RepoView {
    RepoView {
        author: MaintainerView { name: Seq::empty(), email: Seq::empty() },
        last_modified: now,
        packages: Seq::empty(),
    }
}

impl RepoData {
    /// The catalog without author and entries, as of `now`.
    pub fn empty_at(now: Timestamp) -> (r: RepoData)
        ensures
            r@ == empty_repo(now),
    {
        let r = RepoData {
            author: Maintainer { name: String::new(), email: String::new() },
            last_modified: now,
            packages: Vec::new(),
        };
        assert(metas_view(r.packages@) =~= Seq::<MetaView>::empty());
        r
    }
}

/// The outcome of asking one mirror for a catalog, as plain values.
pub enum AttemptView {
    Served(RepoView),
    Refused(ErrorView),
}

/// The view of one attempt.
pub open spec fn attempt_view(r: Result<RepoData, Error>) -> AttemptView {
    match r {
        Ok(d) => AttemptView::Served(d@),
        Err(e) => AttemptView::Refused(e@),
    }
}

/// The views of a sequence of attempts.
pub open spec fn attempts_view(v: Seq<Result<RepoData, Error>>) -> Seq<AttemptView> {
    v.map_values(|r: Result<RepoData, Error>| attempt_view(r))
}

/// Position of the first attempt that was served, or the number of
/// attempts where none was.
pub open spec fn first_served(v: Seq<AttemptView>) -> int
    decreases v.len(),
{
    if v.len() == 0 {
        0
    } else if v[0] is Served {
        0
    } else {
        1 + first_served(v.drop_first())
    }
}

/// The mirror to ask next, given how many mirrors there are and what those
/// asked so far answered: the one behind the last that was asked, as long as
/// none has served and one is left. Once a mirror has served, none is asked.
pub open spec fn next_mirror(mirrors: int, attempts: Seq<AttemptView>) -> Option<int> {
    if first_served(attempts) == attempts.len() && attempts.len() < mirrors {
        Some(attempts.len() as int)
    } else {
        None
    }
}

/// The attempts that are made on mirrors that would answer `outcomes`,
/// given those made so far.
pub open spec fn mirrors_asked(outcomes: Seq<AttemptView>, attempts: Seq<AttemptView>) -> Seq<
    AttemptView,
>
    decreases outcomes.len() - attempts.len(),
{
    match next_mirror(outcomes.len() as int, attempts) {
        Some(i) => mirrors_asked(outcomes, attempts.push(outcomes[i])),
        None => attempts,
    }
}

/// The messages of the attempts, each of which was refused.
pub open spec fn refusals(v: Seq<AttemptView>) -> Seq<Seq<char>> {
    Seq::new(v.len(), |i: int| v[i]->Refused_0.message)
}

/// The message of the error that reports that no mirror served.
pub open spec fn no_mirror() -> Seq<char> {
    "no mirror served the manifest"@
}

/// `first_served` is the position of the first attempt that was served.
pub proof fn lemma_first_served_is(v: Seq<AttemptView>, at: int)
    requires
        0 <= at <= v.len(),
        forall|k: int| 0 <= k < at ==> (#[trigger] v[k]) is Refused,
        at < v.len() ==> v[at] is Served,
    ensures
        first_served(v) == at,
    decreases v.len(),
{
    if at > 0 {
        let t = v.drop_first();
        assert(v[0] is Refused);
        assert forall|k: int| 0 <= k < at - 1 implies (#[trigger] t[k]) is Refused by {
            assert(t[k] == v[k + 1]);
        }
        lemma_first_served_is(t, at - 1);
    }
}

impl RepoData {
    /// The catalog of a native repository with several mirrors, given the
    /// outcome of asking each in turn: that of the first mirror that
    /// served. Where none served, the error is `SourceUnavailable` and
    /// holds the message of every refusal, in order.
    pub fn ipm(attempts: Vec<Result<RepoData, Error>>) -> (r: Result<RepoData, Error>)
        ensures
            match r {
                Ok(d) => first_served(attempts_view(attempts@)) < attempts.len() && attempts_view(
                    attempts@,
                )[first_served(attempts_view(attempts@))] == AttemptView::Served(d@),
                Err(e) => first_served(attempts_view(attempts@)) == attempts.len() && e@ == (
                ErrorView {
                    kind: ErrorKind::SourceUnavailable,
                    message: no_mirror(),
                    causes: refusals(attempts_view(attempts@)),
                }),
            },
    {
        let ghost all = attempts_view(attempts@);
        let mut causes: Vec<String> = Vec::new();
        let ghost n = attempts.len();
        for attempt in it: attempts
            invariant
                it.seq() == attempts@,
                all == attempts_view(attempts@),
                n == attempts.len(),
                forall|k: int| 0 <= k < it.index() ==> (#[trigger] all[k]) is Refused,
                causes.len() == it.index(),
                forall|k: int|
                    0 <= k < it.index() ==> (#[trigger] causes@[k])@ == all[k]->Refused_0.message,
        {
            assert(attempt_view(attempt) == all[it.index() as int]);
            match attempt {
                Ok(d) => {
                    proof {
                        lemma_first_served_is(all, it.index() as int);
                    }
                    return Ok(d);
                },
                Err(e) => {
                    causes.push(e.message);
                },
            }
        }
        proof {
            lemma_first_served_is(all, n as int);
            assert(str_views(causes@) =~= refusals(all));
        }
        Err(
            Error::new(
                ErrorKind::SourceUnavailable,
                string_of(&chars_of("no mirror served the manifest")),
                causes,
            ),
        )
    }
}

impl RepoData {
    /// The mirror to ask next for the manifest of a native repository with
    /// `mirrors` mirrors, given what those asked so far answered; none once a
    /// mirror has served or every mirror was asked.
    pub fn ask_next(mirrors: usize, attempts: &Vec<Result<RepoData, Error>>) -> (r: Option<usize>)
        ensures
            match r {
                Some(i) => next_mirror(mirrors as int, attempts_view(attempts@)) == Some(i as int),
                None => next_mirror(mirrors as int, attempts_view(attempts@)) is None,
            },
    {
        let ghost all = attempts_view(attempts@);
        let mut i: usize = 0;
        while i < attempts.len()
            invariant
                i <= attempts.len(),
                all == attempts_view(attempts@),
                forall|k: int| 0 <= k < i ==> (#[trigger] all[k]) is Refused,
            decreases attempts.len() - i,
        {
            assert(all[i as int] == attempt_view(attempts@[i as int]));
            match &attempts[i] {
                Ok(_) => {
                    proof {
                        lemma_first_served_is(all, i as int);
                    }
                    return None;
                },
                Err(_) => {},
            }
            i = i + 1;
        }
        proof {
            lemma_first_served_is(all, attempts.len() as int);
        }
        if attempts.len() < mirrors {
            Some(attempts.len())
        } else {
            None
        }
    }
}

/// No mirror is asked behind the first that serves: the attempts that are
/// made are the outcomes of the mirrors up to and with the first that
/// serves, or of all of them where none does.
pub proof fn lemma_mirrors_asked(outcomes: Seq<AttemptView>)
    ensures
        first_served(outcomes) < outcomes.len() ==> mirrors_asked(outcomes, Seq::empty())
            == outcomes.take(first_served(outcomes) + 1),
        first_served(outcomes) >= outcomes.len() ==> mirrors_asked(outcomes, Seq::empty())
            == outcomes,
{
    lemma_first_served_bounds(outcomes);
    lemma_mirrors_asked_from(outcomes, 0);
    assert(outcomes.take(0) =~= Seq::<AttemptView>::empty());
}

/// What the asking of the mirrors comes to: where a mirror serves, the
/// attempts that are made end with the first that does, so that
/// `RepoData::ipm` gives its catalog; where none does, every mirror was
/// asked, so that the error holds the message of each, in order.
pub proof fn lemma_mirrors_outcome(outcomes: Seq<AttemptView>)
    ensures
        first_served(outcomes) < outcomes.len() ==> {
            let asked = mirrors_asked(outcomes, Seq::empty());
            &&& asked.len() == first_served(outcomes) + 1
            &&& first_served(asked) == first_served(outcomes)
            &&& asked[first_served(asked)] == outcomes[first_served(outcomes)]
        },
        first_served(outcomes) >= outcomes.len() ==> {
            let asked = mirrors_asked(outcomes, Seq::empty());
            &&& first_served(asked) == asked.len()
            &&& refusals(asked) == refusals(outcomes)
        },
{
    lemma_mirrors_asked(outcomes);
    lemma_first_served_bounds(outcomes);
    let j = first_served(outcomes);
    if j < outcomes.len() {
        let asked = outcomes.take(j + 1);
        assert forall|k: int| 0 <= k < j implies (#[trigger] asked[k]) is Refused by {
            assert(asked[k] == outcomes[k]);
        }
        assert(asked[j] == outcomes[j]);
        lemma_first_served_is(asked, j);
    }
}

/// `first_served` lies within the attempts; it is served where it is an
/// attempt, and every attempt before it was refused.
pub proof fn lemma_first_served_bounds(v: Seq<AttemptView>)
    ensures
        0 <= first_served(v) <= v.len(),
        first_served(v) < v.len() ==> v[first_served(v)] is Served,
        forall|k: int| 0 <= k < first_served(v) ==> (#[trigger] v[k]) is Refused,
    decreases v.len(),
{
    if v.len() > 0 && !(v[0] is Served) {
        let t = v.drop_first();
        lemma_first_served_bounds(t);
        assert forall|k: int| 0 <= k < first_served(v) implies (#[trigger] v[k]) is Refused by {
            if k > 0 {
                assert(v[k] == t[k - 1]);
            }
        }
        if first_served(v) < v.len() {
            assert(v[first_served(v)] == t[first_served(t)]);
        }
    }
}

/// The attempts that are made once the first `k` mirrors were asked and
/// none of them served.
pub proof fn lemma_mirrors_asked_from(outcomes: Seq<AttemptView>, k: int)
    requires
        0 <= k <= first_served(outcomes),
        k <= outcomes.len(),
    ensures
        first_served(outcomes) < outcomes.len() ==> mirrors_asked(outcomes, outcomes.take(k))
            == outcomes.take(first_served(outcomes) + 1),
        first_served(outcomes) >= outcomes.len() ==> mirrors_asked(outcomes, outcomes.take(k))
            == outcomes,
    decreases outcomes.len() - k,
{
    lemma_first_served_bounds(outcomes);
    let j = first_served(outcomes);
    let sofar = outcomes.take(k);
    assert forall|i: int| 0 <= i < k implies (#[trigger] sofar[i]) is Refused by {
        assert(sofar[i] == outcomes[i]);
    }
    lemma_first_served_is(sofar, k);
    if k < outcomes.len() {
        let next = sofar.push(outcomes[k]);
        assert(next =~= outcomes.take(k + 1));
        assert(mirrors_asked(outcomes, sofar) == mirrors_asked(outcomes, next));
        if k < j {
            lemma_mirrors_asked_from(outcomes, k + 1);
        } else {
            assert(k == j);
            assert forall|i: int| 0 <= i < k implies (#[trigger] next[i]) is Refused by {
                assert(next[i] == outcomes[i]);
            }
            assert(next[k] is Served);
            lemma_first_served_is(next, k);
            assert(next_mirror(outcomes.len() as int, next) is None);
            assert(mirrors_asked(outcomes, next) == next);
        }
    } else {
        assert(sofar =~= outcomes);
        assert(next_mirror(outcomes.len() as int, sofar) is None);
    }
}

/// The path of a package file inside its archive: the `Filename` field
/// where the paragraph has one, else the conventional pool path made of
/// the first letter of the package name and the name itself.
pub open spec fn download_path(filename: Option<Seq<char>>, name: Seq<char>) -> Seq<char> {
    match filename {
        Some(f) => f,
        None => "pool/"@ + name.take(if name.len() > 0 {
            1int
        } else {
            0int
        }) + "/"@ + name,
    }
}

/// The text of the location that `path` has below or beside `base`.
pub open spec fn resolved(base: UrlView, path: Seq<char>) -> Seq<char> {
    render(
        UrlView {
            protocol: base.protocol,
            domain: base.domain,
            path: path_join(seq!['/'], path_join(base.path, path)),
        },
    )
}

/// Resolves `path` against `base` and renders the result.
pub fn resolve(base: &URL, path: &str) -> (r: String)
    ensures
        r@ == resolved(base@, path@),
{
    base.join_path(path).to_string()
}

fn download_path_of(filename: Option<&String>, name: &str) -> (r: String)
    ensures
        r@ == download_path(crate::record::opt_view(filename), name@),
{
    match filename {
        Some(f) => f.clone(),
        None => {
            let n = chars_of(name);
            let mut path: Vec<char> = Vec::new();
            extend_str(&mut path, "pool/");
            if n.len() > 0 {
                path.push(n[0]);
                assert(seq![n@[0]] =~= n@.take(1));
            } else {
                assert(n@.take(0) =~= Seq::<char>::empty());
            }
            extend_str(&mut path, "/");
            extend(&mut path, &n);
            assert(path@ =~= download_path(None, name@));
            string_of(&path)
        },
    }
}

/// Where the package file of a paragraph lies: its download path resolved
/// against the base of the mirror.
pub fn download_url(base: &URL, filename: Option<&String>, name: &str) -> (r: String)
    ensures
        r@ == resolved(base@, download_path(crate::record::opt_view(filename), name@)),
{
    let path = download_path_of(filename, name);
    resolve(base, path.as_str())
}

/// The first name of a path: what stands between the `/` that begin the
/// path and the next `/`. It is empty where the path holds no name.
pub open spec fn first_segment(path: Seq<char>) -> Seq<char> {
    let p = strip_start(path, CharClass::Is('/').pred());
    p.take(index_of(p, '/'))
}

/// The root of the archive that a flat index belongs to: `/`, the first
/// name of the path of the index, and `/`.
pub open spec fn archive_root(path: Seq<char>) -> Seq<char> {
    seq!['/'] + first_segment(path) + seq!['/']
}

/// The text of the location that `path` has in the archive of the flat
/// index at `base`: protocol and domain of the index, then the root of the
/// archive, then `path`.
pub open spec fn in_archive(base: UrlView, path: Seq<char>) -> Seq<char> {
    render(
        UrlView {
            protocol: base.protocol,
            domain: base.domain,
            path: archive_root(base.path) + path,
        },
    )
}

/// Where the package file of a paragraph of a flat index lies: its download
/// path below the root of the archive that the index at `base` belongs to.
pub fn archive_url(base: &URL, filename: Option<&String>, name: &str) -> (r: String)
    ensures
        r@ == in_archive(base@, download_path(crate::record::opt_view(filename), name@)),
{
    let v = chars_of(base.path());
    assert(v@.subrange(0, v.len() as int) == v@);
    let a = lead_end(&v, 0, v.len(), CharClass::Is('/'));
    let ghost p = v@.subrange(a as int, v.len() as int);
    proof {
        lemma_index_of(p, '/');
    }
    let end = match position(&v, '/', a, v.len()) {
        Some(at) => at,
        None => v.len(),
    };
    let mut path: Vec<char> = Vec::new();
    path.push('/');
    let segment = slice_of(&v, a, end);
    assert(segment@ == p.take(end - a));
    extend(&mut path, &segment);
    path.push('/');
    let tail = download_path_of(filename, name);
    extend_str(&mut path, tail.as_str());
    assert(path@ =~= archive_root(base@.path) + tail@);
    let text = string_of(&path);
    let u = URL::new(base.protocol(), base.domain(), text.as_str());
    assert(path_join(seq!['/'], text@) == text@);
    u.to_string()
}

/// A location in the archive of a flat index is absolute as well: it begins
/// with the protocol and the domain of the index, followed by a path that
/// begins with `/`.
pub proof fn lemma_in_archive_is_absolute(base: UrlView, path: Seq<char>)
    ensures
        crate::text::begins_with(
            in_archive(base, path),
            base.protocol + crate::www::scheme_mark() + base.domain + seq!['/'],
        ),
{
    let origin = base.protocol + crate::www::scheme_mark() + base.domain;
    let p = archive_root(base.path) + path;
    assert(p[0] == '/');
    assert(in_archive(base, path) == origin + p);
    assert((origin + p).subrange(0, origin.len() as int + 1) =~= origin + seq!['/']);
}

/// Every location that leaves an adapter is absolute: it begins with the
/// protocol and the domain of the base that it was resolved against,
/// followed by a path that begins with `/`.
pub proof fn lemma_resolved_is_absolute(base: UrlView, path: Seq<char>)
    ensures
        crate::text::begins_with(
            resolved(base, path),
            base.protocol + crate::www::scheme_mark() + base.domain + seq!['/'],
        ),
{
    let origin = base.protocol + crate::www::scheme_mark() + base.domain;
    let p = path_join(seq!['/'], path_join(base.path, path));
    assert(p[0] == '/');
    assert(resolved(base, path) == origin + p);
    assert((origin + p).subrange(0, origin.len() as int + 1) =~= origin + seq!['/']);
}

} // verus!
