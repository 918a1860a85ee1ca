//! What a client keeps of a served repository: its location, its author
//! and its entries, refreshed from the manifest that the repository serves.

use crate::control::MaintainerView;
use crate::error::{Error, ErrorKind, ErrorView};
use crate::record::{Maintainer, PackageRecord};
use crate::repo::{metas_view, MetaView, PackageMetaData, Timestamp};
use crate::text::{chars_of, extend_str, string_of};
use vstd::prelude::*;

verus! {

/// An entry of a served manifest.
pub type PackageMetadata = PackageMetaData;

/// The manifest that a repository serves about itself.
#[derive(Debug, Clone)]
pub struct RepoYaml {
    pub url: String,
    pub author: Maintainer,
    pub last_updated: Option<Timestamp>,
    pub packages: Vec<PackageMetaData>,
}

/// The manifest of a served repository, as plain values.
pub struct RepoYamlView {
    pub url: Seq<char>,
    pub author: MaintainerView,
    pub last_updated: Option<Timestamp>,
    pub packages: Seq<MetaView>,
}

impl View for RepoYaml {
    type V = RepoYamlView;

    open spec fn view(&self) -> RepoYamlView {
        RepoYamlView {
            url: self.url@,
            author: self.author@,
            last_updated: self.last_updated,
            packages: metas_view(self.packages@),
        }
    }
}

/// A served repository as a client knows it.
pub struct RepoIndex {
    url: String,
    pub author: Maintainer,
    last_updated: Option<Timestamp>,
    packages: Vec<PackageMetaData>,
}

/// What a client knows of a served repository, as plain values.
pub struct IndexView {
    pub url: Seq<char>,
    pub author: MaintainerView,
    pub last_updated: Option<Timestamp>,
    pub packages: Seq<MetaView>,
}

impl View for RepoIndex {
    type V = IndexView;

    closed spec fn view(&self) -> IndexView {
        IndexView {
            url: self.url@,
            author: self.author@,
            last_updated: self.last_updated,
            packages: metas_view(self.packages@),
        }
    }
}

/// The index of a repository that was never refreshed.
pub open spec fn fresh(url: Seq<char>) -> IndexView {
    IndexView {
        url,
        author: MaintainerView { name: Seq::empty(), email: Seq::empty() },
        last_updated: None,
        packages: Seq::empty(),
    }
}

/// The index after the manifest `doc` was taken over at the moment `now`.
pub open spec fn refreshed(doc: RepoYamlView, now: Timestamp) -> IndexView {
    IndexView { url: doc.url, author: doc.author, last_updated: Some(now), packages: doc.packages }
}

/// The error of a refresh that got no manifest.
pub open spec fn not_refreshed(cause: Seq<char>) -> ErrorView {
    ErrorView { kind: ErrorKind::SourceUnavailable, message: cause, causes: Seq::empty() }
}

impl RepoIndex {
    /// The index of the repository at `url`, without entries as yet.
    pub fn new(url: String) -> (r: RepoIndex)
        ensures
            r@ == fresh(url@),
    {
        let r = RepoIndex {
            url,
            author: Maintainer { name: String::new(), email: String::new() },
            last_updated: None,
            packages: Vec::new(),
        };
        assert(metas_view(r.packages@) =~= Seq::<MetaView>::empty());
        r
    }

    /// The location of the manifest: `{url}/repo.yaml`.
    pub fn manifest_location(&self) -> (r: String)
        ensures
            r@ == self@.url + "/repo.yaml"@,
    {
        let mut out = chars_of(self.url.as_str());
        extend_str(&mut out, "/repo.yaml");
        string_of(&out)
    }

    /// Whether the entries have to be fetched before they can be handed
    /// out: that is so as long as there are none.
    pub fn needs_update(&self) -> (r: bool)
        ensures
            r == (self@.packages.len() == 0),
    {
        assert(self@.packages.len() == self.packages.len());
        self.packages.len() == 0
    }

    /// Takes over the manifest that was fetched from `manifest_location`,
    /// or reports why there is none; an index that is not refreshed stays
    /// as it was.
    pub fn update(&mut self, response: Result<RepoYaml, String>, now: Timestamp) -> (r: Result<
        (),
        Error,
    >)
        ensures
            match response {
                Ok(doc) => r is Ok && final(self)@ == refreshed(doc@, now),
                Err(c) => r is Err && r->Err_0@ == not_refreshed(c@) && final(self)@ == old(
                    self,
                )@,
            },
    {
        match response {
            Ok(doc) => {
                self.url = doc.url;
                self.author = doc.author;
                self.packages = doc.packages;
                self.last_updated = Some(now);
                Ok(())
            },
            Err(c) => {
                let e = Error::new(ErrorKind::SourceUnavailable, c, Vec::new());
                assert(e@.causes =~= Seq::<Seq<char>>::empty());
                Err(e)
            },
        }
    }

    /// The records of the entries, in order.
    pub fn get(&self) -> (r: Vec<&PackageRecord>)
        ensures
            r.len() == self@.packages.len(),
            forall|i: int| 0 <= i < r.len() ==> (#[trigger] r@[i])@ == self@.packages[i].info,
    {
        let mut out: Vec<&PackageRecord> = Vec::new();
        let mut i: usize = 0;
        while i < self.packages.len()
            invariant
                i <= self.packages.len(),
                out.len() == i,
                forall|k: int| 0 <= k < i ==> (#[trigger] out@[k])@ == self.packages@[k].info@,
            decreases self.packages.len() - i,
        {
            out.push(&self.packages[i].info);
            i = i + 1;
        }
        assert(self@.packages.len() == self.packages.len());
        out
    }
}

} // verus!
