//! The adapter for native repositories: a single manifest whose entries may
//! name their package files relative to the manifest itself.

use crate::error::{Error, ErrorKind};
use crate::repo::{metas_view, resolve, resolved, MetaView, RepoData, RepoView};
use crate::apt::unavailable;
use crate::www::{path_join, scheme_mark, URL, UrlView};
use vstd::prelude::*;

verus! {

/// The location of the manifest of the repository at `base`.
pub open spec fn manifest_of(base: UrlView) -> UrlView {
    UrlView {
        protocol: base.protocol,
        domain: base.domain,
        path: path_join(seq!['/'], path_join(base.path, "repo.yaml"@)),
    }
}

/// An entry with its location resolved against that of the manifest.
pub open spec fn rebased_entry(m: MetaView, manifest: UrlView) -> MetaView {
    MetaView { url: resolved(manifest, m.url), ..m }
}

/// A manifest with the location of every entry resolved against its own:
/// an absolute path replaces the path of the manifest, a relative one is
/// appended to it.
pub open spec fn rebased(doc: RepoView, manifest: UrlView) -> RepoView {
    RepoView {
        packages: doc.packages.map_values(|m: MetaView| rebased_entry(m, manifest)),
        ..doc
    }
}

/// The location of the manifest of the repository at `base`.
pub fn manifest_url(base: &URL) -> (r: URL)
    ensures
        r@ == manifest_of(base@),
        r.wf(),
{
    base.join_path("repo.yaml")
}

/// The catalog of the native repository at `url`, given the answer to the
/// request for its manifest: the manifest as it was read, or why it could
/// not be fetched or read. Every failure is `SourceUnavailable`.
pub fn fetch(url: URL, response: Result<RepoData, String>) -> (r: Result<RepoData, Error>)
    ensures
        match response {
            Err(c) => r is Err && r->Err_0@ == unavailable(c@),
            Ok(doc) => r is Ok && r->Ok_0@ == rebased(doc@, manifest_of(url@)),
        },
{
    match response {
        Err(c) => {
            let e = Error::new(ErrorKind::SourceUnavailable, c, Vec::new());
            assert(e@.causes =~= Seq::<Seq<char>>::empty());
            Err(e)
        },
        Ok(doc) => {
            let manifest = manifest_url(&url);
            let ghost before = doc@;
            let ghost conv = |m: MetaView| rebased_entry(m, manifest@);
            let RepoData { author, last_modified, packages } = doc;
            let mut packages = packages;
            let ghost all = metas_view(packages@);
            let n = packages.len();
            let mut i: usize = 0;
            while i < n
                invariant
                    i <= n,
                    n == packages.len(),
                    all.len() == n,
                    manifest@ == manifest_of(url@),
                    forall|k: int|
                        0 <= k < i ==> (#[trigger] packages@[k])@ == rebased_entry(
                            all[k],
                            manifest@,
                        ),
                    forall|k: int| i <= k < n ==> (#[trigger] packages@[k])@ == all[k],
                decreases n - i,
            {
                let link = resolve(&manifest, packages[i].url.as_str());
                packages[i].url = link;
                i = i + 1;
            }
            let out = RepoData { author, last_modified, packages };
            assert(out@.packages =~= before.packages.map_values(conv));
            Ok(out)
        },
    }
}

/// Every entry that leaves the adapter has an absolute location: one that
/// begins with the protocol and the domain of the manifest, followed by a
/// path that begins with `/`.
pub proof fn lemma_entries_are_absolute(doc: RepoView, base: UrlView, i: int)
    requires
        0 <= i < doc.packages.len(),
    ensures
        crate::text::begins_with(
            rebased(doc, manifest_of(base)).packages[i].url,
            base.protocol + scheme_mark() + base.domain + seq!['/'],
        ),
{
    crate::repo::lemma_resolved_is_absolute(manifest_of(base), doc.packages[i].url);
}

} // verus!
