//! Search in the combined catalog, and the plan of a download: which
//! entries match, under what name each is stored, and what the outcome of
//! the downloads amounts to.

use crate::error::{Error, ErrorKind, ErrorView};
use crate::repo::{metas_view, MetaView, PackageMetaData};
use crate::text::{chars_of, extend_str, same, split, split_on, str_views, string_of, views};
use crate::www::{parse_url, URL};
use vstd::prelude::*;
use vstd::std_specs::iter::IteratorSpec;

verus! {

/// Whether an entry has one of the names, compared character by character.
pub open spec fn is_wanted(m: MetaView, names: Seq<Seq<char>>) -> bool {
    names.contains(m.info.identity.name)
}

/// The entries that have one of the names, in their order. Entries of the
/// same name from different sources are all kept.
pub open spec fn matching(entries: Seq<MetaView>, names: Seq<Seq<char>>) -> Seq<MetaView> {
    entries.filter(|m: MetaView| is_wanted(m, names))
}

fn wanted(m: &PackageMetaData, names: &Vec<String>) -> (r: bool)
    ensures
        r == is_wanted(m@, str_views(names@)),
{
    let name = chars_of(m.info.identity.name.as_str());
    let mut i: usize = 0;
    while i < names.len()
        invariant
            i <= names.len(),
            name@ == m@.info.identity.name,
            forall|k: int| 0 <= k < i ==> str_views(names@)[k] != name@,
        decreases names.len() - i,
    {
        let n = chars_of(names[i].as_str());
        if same(&n, &name) {
            assert(str_views(names@)[i as int] == name@);
            return true;
        }
        i = i + 1;
    }
    false
}

/// The entries of the combined catalog whose name is one of
/// `packages_name`. The comparison is exact; nothing is deduplicated.
pub fn search_pkgs(packages: Vec<PackageMetaData>, packages_name: &Vec<String>) -> (r: Vec<
    PackageMetaData,
>)
    ensures
        metas_view(r@) == matching(metas_view(packages@), str_views(packages_name@)),
{
    let ghost all = metas_view(packages@);
    let ghost names = str_views(packages_name@);
    let ghost keep = |m: MetaView| is_wanted(m, names);
    let mut out: Vec<PackageMetaData> = Vec::new();
    proof {
        reveal(Seq::filter);
        assert(metas_view(out@) =~= all.take(0).filter(keep));
    }
    for m in it: packages
        invariant
            it.seq() == packages@,
            all == metas_view(packages@),
            names == str_views(packages_name@),
            keep == |m: MetaView| is_wanted(m, names),
            metas_view(out@) == all.take(it.index() as int).filter(keep),
    {
        proof {
            reveal(Seq::filter);
            let pre = all.take(it.index() + 1);
            assert(pre.drop_last() == all.take(it.index() as int));
            assert(pre.last() == m@);
        }
        if wanted(&m, packages_name) {
            assert(metas_view(out@.push(m)) =~= metas_view(out@).push(m@));
            out.push(m);
        }
    }
    assert(all.take(all.len() as int) == all);
    out
}

/// Whether a piece of a path is a name: neither empty nor `.`.
pub open spec fn is_segment(s: Seq<char>) -> bool {
    s.len() > 0 && s != seq!['.']
}

/// The last piece of `pieces` that is a name.
pub open spec fn last_named(pieces: Seq<Seq<char>>) -> Option<Seq<char>>
    decreases pieces.len(),
{
    if pieces.len() == 0 {
        None
    } else if is_segment(pieces.last()) {
        Some(pieces.last())
    } else {
        last_named(pieces.drop_last())
    }
}

/// The file name of a path: its last piece between `/` that is a name,
/// unless that piece is `..`.
pub open spec fn file_name_of(path: Seq<char>) -> Option<Seq<char>> {
    match last_named(split(path, '/')) {
        Some(s) => if s == seq!['.', '.'] {
            None
        } else {
            Some(s)
        },
        None => None,
    }
}

/// The name made up for an entry whose location has no file name.
pub open spec fn made_up_name(m: MetaView) -> Seq<char> {
    m.info.identity.name + "-"@ + m.info.identity.version + ".package"@
}

/// The name under which the package file of an entry is stored: the file
/// name of its location where it has one, else `{name}-{version}.package`.
pub open spec fn local_name(m: MetaView) -> Seq<char> {
    match parse_url(m.url) {
        Some(u) => match file_name_of(u.path) {
            Some(s) => s,
            None => made_up_name(m),
        },
        None => made_up_name(m),
    }
}

fn file_name_in(path: &str) -> (r: Option<String>)
    ensures
        match r {
            Some(s) => file_name_of(path@) == Some(s@),
            None => file_name_of(path@) is None,
        },
{
    let chars = chars_of(path);
    let pieces = split_on(&chars, '/');
    let ghost all = views(pieces@);
    let mut i: usize = pieces.len();
    assert(all.take(i as int) == all);
    while i > 0
        invariant
            i <= pieces.len(),
            all == views(pieces@),
            all == split(path@, '/'),
            last_named(all) == last_named(all.take(i as int)),
        decreases i,
    {
        let piece = &pieces[i - 1];
        proof {
            let cur = all.take(i as int);
            assert(cur.last() == piece@);
            assert(cur.drop_last() == all.take(i - 1));
        }
        let dot = piece.len() == 1 && piece[0] == '.';
        proof {
            if dot {
                assert(piece@ =~= seq!['.']);
            }
        }
        if piece.len() > 0 && !dot {
            let up = piece.len() == 2 && piece[0] == '.' && piece[1] == '.';
            proof {
                if up {
                    assert(piece@ =~= seq!['.', '.']);
                }
            }
            if up {
                return None;
            }
            return Some(string_of(piece));
        }
        i = i - 1;
    }
    None
}

/// The name under which the package file of `m` is stored.
pub fn file_name(m: &PackageMetaData) -> (r: String)
    ensures
        r@ == local_name(m@),
{
    let found = match URL::parse(m.url.as_str()) {
        Ok(u) => file_name_in(u.path()),
        Err(_) => None,
    };
    match found {
        Some(s) => s,
        None => {
            let mut out = chars_of(m.info.identity.name.as_str());
            extend_str(&mut out, "-");
            extend_str(&mut out, m.info.identity.version.text.as_str());
            extend_str(&mut out, ".package");
            assert(out@ =~= made_up_name(m@));
            string_of(&out)
        },
    }
}

/// One download: where from, and under what name to store it.
#[derive(Debug, Clone)]
pub struct Download {
    pub url: String,
    pub file_name: String,
}

/// One download, as plain values.
pub struct DownloadView {
    pub url: Seq<char>,
    pub file_name: Seq<char>,
}

impl View for Download {
    type V = DownloadView;

    open spec fn view(&self) -> DownloadView {
        DownloadView { url: self.url@, file_name: self.file_name@ }
    }
}

/// The download of an entry.
pub open spec fn download_of(m: MetaView) -> DownloadView {
    DownloadView { url: m.url, file_name: local_name(m) }
}

/// The downloads of the entries that were found, one for each, in their
/// order.
pub fn fetch_pkg(found: &Vec<PackageMetaData>) -> (r: Vec<Download>)
    ensures
        r@.map_values(|d: Download| d@) == metas_view(found@).map_values(
            |m: MetaView| download_of(m),
        ),
{
    let mut out: Vec<Download> = Vec::new();
    let mut i: usize = 0;
    while i < found.len()
        invariant
            i <= found.len(),
            out.len() == i,
            forall|k: int| 0 <= k < i ==> (#[trigger] out@[k])@ == download_of(found@[k]@),
        decreases found.len() - i,
    {
        let m = &found[i];
        out.push(Download { url: m.url.clone(), file_name: file_name(m) });
        i = i + 1;
    }
    assert(out@.map_values(|d: Download| d@) =~= metas_view(found@).map_values(
        |m: MetaView| download_of(m),
    ));
    out
}

/// What one download came to, as plain values.
pub type OutcomeView = Result<(), Seq<char>>;

/// The view of an outcome.
pub open spec fn outcome_view(r: Result<(), String>) -> OutcomeView {
    match r {
        Ok(_) => Ok(()),
        Err(c) => Err(c@),
    }
}

/// The causes of the downloads that failed, in order.
pub open spec fn failed_causes(v: Seq<OutcomeView>) -> Seq<Seq<char>>
    decreases v.len(),
{
    if v.len() == 0 {
        Seq::empty()
    } else {
        match v.last() {
            Ok(_) => failed_causes(v.drop_last()),
            Err(c) => failed_causes(v.drop_last()).push(c),
        }
    }
}

/// The error of a run in which some downloads failed.
pub open spec fn partial_failure(causes: Seq<Seq<char>>) -> ErrorView {
    ErrorView { kind: ErrorKind::PartialFailure, message: "some downloads failed"@, causes }
}

/// What the downloads came to as a whole. Every download is attempted; the
/// run succeeds where none failed, and else reports the cause of each
/// failure.
pub fn fetch_report(outcomes: &Vec<Result<(), String>>) -> (r: Result<(), Error>)
    ensures
        match r {
            Ok(_) => failed_causes(outcomes@.map_values(|o: Result<(), String>| outcome_view(o)))
                .len() == 0,
            Err(e) => e@ == partial_failure(
                failed_causes(outcomes@.map_values(|o: Result<(), String>| outcome_view(o))),
            ) && e@.causes.len() > 0,
        },
{
    let ghost all = outcomes@.map_values(|o: Result<(), String>| outcome_view(o));
    let mut causes: Vec<String> = Vec::new();
    let mut i: usize = 0;
    assert(str_views(causes@) =~= failed_causes(all.take(0)));
    while i < outcomes.len()
        invariant
            i <= outcomes.len(),
            all == outcomes@.map_values(|o: Result<(), String>| outcome_view(o)),
            str_views(causes@) == failed_causes(all.take(i as int)),
        decreases outcomes.len() - i,
    {
        proof {
            let pre = all.take(i + 1);
            assert(pre.drop_last() == all.take(i as int));
            assert(pre.last() == outcome_view(outcomes@[i as int]));
        }
        match &outcomes[i] {
            Ok(_) => {},
            Err(c) => {
                let copy = c.clone();
                assert(str_views(causes@.push(copy)) =~= str_views(causes@).push(copy@));
                causes.push(copy);
            },
        }
        i = i + 1;
    }
    assert(all.take(outcomes.len() as int) == all);
    if causes.len() == 0 {
        Ok(())
    } else {
        Err(
            Error::new(
                ErrorKind::PartialFailure,
                string_of(&chars_of("some downloads failed")),
                causes,
            ),
        )
    }
}

/// A search over two sources of which the first failed and the second
/// answered with one entry of the wanted name finds exactly that entry.
pub proof fn lemma_search_survives_failed_source(
    e: ErrorView,
    d: crate::repo::RepoView,
    name: Seq<char>,
)
    requires
        d.packages.len() == 1,
        d.packages[0].info.identity.name == name,
    ensures
        matching(
            crate::list::merged(
                seq![crate::repo::AttemptView::Refused(e), crate::repo::AttemptView::Served(d)],
            ),
            seq![name],
        ) == d.packages,
{
    crate::list::lemma_second_source_survives(e, d);
    let names = seq![name];
    let keep = |m: MetaView| is_wanted(m, names);
    let all = d.packages;
    reveal(Seq::filter);
    assert(names[0] == name);
    assert(is_wanted(all[0], names));
    assert(all.drop_last() =~= Seq::<MetaView>::empty());
    assert(all.drop_last().filter(keep) =~= Seq::<MetaView>::empty());
    assert(all.filter(keep) =~= seq![all.last()]);
    assert(seq![all.last()] =~= all);
}

} // verus!
