//! The server side: the index of a tree of managed projects, built in two
//! phases, and the record that a client keeps of a served repository.
//!
//! In the build phase every project is built, packaged and its artifacts
//! copied; the first failure ends the run and no manifest is written. In
//! the metadata phase every project is asked to describe itself; a project
//! that cannot is left out of the manifest and the run goes on.

use crate::control::MaintainerView;
use crate::error::{Error, ErrorKind, ErrorView};
use crate::record::{Maintainer, PackageRecord, RecordView};
use crate::repo::{metas_view, MetaView, PackageMetaData, RepoData, RepoView, Timestamp};
use crate::text::{chars_of, extend_str, str_views, string_of};
use vstd::prelude::*;
use vstd::std_specs::iter::IteratorSpec;

verus! {

/// The location of the package file of a record inside a served
/// repository: `/packages/{name}-{version}.ipak`.
pub open spec fn served_path(r: RecordView) -> Seq<char> {
    "/packages/"@ + r.identity.name + "-"@ + r.identity.version + ".ipak"@
}

/// The entry of the manifest for a project that described itself as `r`.
pub open spec fn served_entry(r: RecordView, now: Timestamp) -> MetaView {
    MetaView { last_modified: now, info: r, url: served_path(r) }
}

/// What a project answered when asked to describe itself, as plain values.
pub type DescriptionView = Result<RecordView, Seq<char>>;

/// The view of a description.
pub open spec fn description_view(r: Result<PackageRecord, String>) -> DescriptionView {
    match r {
        Ok(rec) => Ok(rec@),
        Err(c) => Err(c@),
    }
}

/// The views of a sequence of descriptions.
pub open spec fn descriptions_view(v: Seq<Result<PackageRecord, String>>) -> Seq<DescriptionView> {
    v.map_values(|r: Result<PackageRecord, String>| description_view(r))
}

/// The entries of the manifest: one for each project that described
/// itself, in the order of the projects.
pub open spec fn collected(v: Seq<DescriptionView>, now: Timestamp) -> Seq<MetaView>
    decreases v.len(),
{
    if v.len() == 0 {
        Seq::empty()
    } else {
        match v.last() {
            Ok(r) => collected(v.drop_last(), now).push(served_entry(r, now)),
            Err(_) => collected(v.drop_last(), now),
        }
    }
}

/// The causes of the projects that could not describe themselves.
pub open spec fn undescribed(v: Seq<DescriptionView>) -> Seq<Seq<char>>
    decreases v.len(),
{
    if v.len() == 0 {
        Seq::empty()
    } else {
        match v.last() {
            Ok(_) => undescribed(v.drop_last()),
            Err(c) => undescribed(v.drop_last()).push(c),
        }
    }
}

/// The words to hand to the native tool, in the project directory, for the
/// build of a project.
pub fn build_words() -> (r: Vec<String>)
    ensures
        str_views(r@) == build_command(),
{
    let mut r: Vec<String> = Vec::new();
    r.push(string_of(&chars_of("build")));
    r.push(string_of(&chars_of("--release")));
    assert(str_views(r@) =~= build_command());
    r
}

/// The words to hand to the native tool, in the project directory, for the
/// packaging of a project.
pub fn package_words() -> (r: Vec<String>)
    ensures
        str_views(r@) == package_command(),
{
    let mut r: Vec<String> = Vec::new();
    r.push(string_of(&chars_of("package")));
    assert(str_views(r@) =~= package_command());
    r
}

fn artifacts_in(project: &str) -> (r: String)
    ensures
        r@ == artifacts_of(project@),
{
    let dir = chars_of(project);
    let mut out = chars_of(project);
    proof {
        reveal_strlit("ipak/package");
    }
    if !(dir.len() == 0 || dir[dir.len() - 1] == '/') {
        out.push('/');
        extend_str(&mut out, "ipak/package");
        assert(out@ =~= project@ + seq!['/'] + "ipak/package"@);
    } else {
        extend_str(&mut out, "ipak/package");
    }
    string_of(&out)
}

fn entry_for(info: PackageRecord, now: Timestamp) -> (m: PackageMetaData)
    ensures
        m@ == served_entry(info@, now),
{
    let mut url = chars_of("/packages/");
    extend_str(&mut url, info.identity.name.as_str());
    extend_str(&mut url, "-");
    extend_str(&mut url, info.identity.version.text.as_str());
    extend_str(&mut url, ".ipak");
    assert(url@ =~= served_path(info@));
    PackageMetaData { last_modified: now, info, url: string_of(&url) }
}

/// The manifest of a served repository, given what each project answered
/// when asked to describe itself. A project that could not is left out and
/// its cause handed back; the others are all there, in order.
pub fn metadata(author: Maintainer, now: Timestamp, described: Vec<Result<PackageRecord, String>>) -> (r:
    (RepoData, Vec<String>))
    ensures
        r.0@ == (RepoView {
            author: author@,
            last_modified: now,
            packages: collected(descriptions_view(described@), now),
        }),
        str_views(r.1@) == undescribed(descriptions_view(described@)),
{
    let ghost all = descriptions_view(described@);
    let mut entries: Vec<PackageMetaData> = Vec::new();
    let mut causes: Vec<String> = Vec::new();
    proof {
        assert(metas_view(entries@) =~= collected(all.take(0), now));
        assert(str_views(causes@) =~= undescribed(all.take(0)));
    }
    for answer in it: described
        invariant
            it.seq() == described@,
            all == descriptions_view(described@),
            metas_view(entries@) == collected(all.take(it.index() as int), now),
            str_views(causes@) == undescribed(all.take(it.index() as int)),
    {
        proof {
            let pre = all.take(it.index() + 1);
            assert(pre.drop_last() == all.take(it.index() as int));
            assert(pre.last() == description_view(answer));
        }
        match answer {
            Ok(info) => {
                let m = entry_for(info, now);
                assert(metas_view(entries@.push(m)) =~= metas_view(entries@).push(m@));
                entries.push(m);
            },
            Err(c) => {
                assert(str_views(causes@.push(c)) =~= str_views(causes@).push(c@));
                causes.push(c);
            },
        }
    }
    assert(all.take(all.len() as int) == all);
    (RepoData { author, last_modified: now, packages: entries }, causes)
}

/// The phases of a run of the index builder.
#[derive(Debug, Clone, Copy, PartialEq, Eq)]
pub enum Phase {
    /// The project at the position is to be built and packaged.
    Building,
    /// The artifacts of the project at the position are to be copied.
    Copying,
    /// The project at the position is to describe itself.
    Collecting,
    /// The manifest is to be written.
    Writing,
    /// The run is complete.
    Done,
    /// The run has failed.
    Failed,
}

/// What the caller reports after the work of a phase.
#[derive(Debug)]
pub enum News {
    /// How `build --release` and `package` ended, both run in the project
    /// directory before either is looked at.
    Built { build: Result<(), String>, package: Result<(), String> },
    /// How the copy of the artifacts ended.
    Copied(Result<(), String>),
    /// What the project answered when asked to describe itself.
    Described(Result<PackageRecord, String>),
    /// How the writing of the manifest ended.
    Written(Result<(), String>),
}

/// What the caller reports after the work of a phase, as plain values.
pub enum NewsView {
    Built { build: Result<(), Seq<char>>, package: Result<(), Seq<char>> },
    Copied(Result<(), Seq<char>>),
    Described(DescriptionView),
    Written(Result<(), Seq<char>>),
}

/// The view of an outcome without a value.
pub open spec fn done_view(r: Result<(), String>) -> Result<(), Seq<char>> {
    match r {
        Ok(_) => Ok(()),
        Err(c) => Err(c@),
    }
}

impl View for News {
    type V = NewsView;

    open spec fn view(&self) -> NewsView {
        match self {
            News::Built { build, package } => NewsView::Built {
                build: done_view(*build),
                package: done_view(*package),
            },
            News::Copied(r) => NewsView::Copied(done_view(*r)),
            News::Described(r) => NewsView::Described(description_view(*r)),
            News::Written(r) => NewsView::Written(done_view(*r)),
        }
    }
}

/// The work of a phase.
#[derive(Debug)]
pub enum Work<'a> {
    /// Enter the project directory, run the native tool with
    /// `build_words()`, then with `package_words()`, leave the directory
    /// again, and report both outcomes.
    Build(&'a str),
    /// Copy every file of the directory `from` into the directory `into`,
    /// which is created if need be; a project without the directory `from`
    /// has nothing to copy.
    Copy { from: String, into: &'a str },
    /// Enter the project directory, ask the project to describe itself,
    /// and leave the directory again.
    Describe(&'a str),
    /// Write the manifest to the file `path`.
    Write { path: &'a str, manifest: &'a RepoData },
    /// Nothing is left to do; the run ended as given.
    Stop(Result<(), &'a Error>),
}

/// The work of a phase, as plain values.
pub enum WorkView {
    Build(Seq<char>),
    Copy { from: Seq<char>, into: Seq<char> },
    Describe(Seq<char>),
    Write { path: Seq<char>, manifest: RepoView },
    Stop(Result<(), ErrorView>),
}

/// The directory in which a project leaves its packages.
pub open spec fn artifacts_of(project: Seq<char>) -> Seq<char> {
    crate::www::path_join(project, "ipak/package"@)
}

/// The words with which the native tool builds a project.
pub open spec fn build_command() -> Seq<Seq<char>> {
    seq!["build"@, "--release"@]
}

/// The words with which the native tool packages a project.
pub open spec fn package_command() -> Seq<Seq<char>> {
    seq!["package"@]
}

/// The directory of the repository into which the packages are copied.
pub const PACKAGES_DIR: &'static str = "out/packages";

/// The file of the repository that holds the manifest.
pub const MANIFEST_FILE: &'static str = "out/repo.yaml";

impl<'a> View for Work<'a> {
    type V = WorkView;

    open spec fn view(&self) -> WorkView {
        match self {
            Work::Build(p) => WorkView::Build(p@),
            Work::Copy { from, into } => WorkView::Copy { from: from@, into: into@ },
            Work::Describe(p) => WorkView::Describe(p@),
            Work::Write { path, manifest } => WorkView::Write { path: path@, manifest: manifest@ },
            Work::Stop(r) => WorkView::Stop(
                match r {
                    Ok(_) => Ok(()),
                    Err(e) => Err(e@),
                },
            ),
        }
    }
}

/// A run of the index builder over the projects of one tree.
pub struct IndexBuilder {
    projects: Vec<String>,
    phase: Phase,
    position: usize,
    manifest: RepoData,
    omitted: Vec<String>,
    failure: Error,
}

/// The state of a run of the index builder, as plain values.
pub struct BuilderView {
    pub projects: Seq<Seq<char>>,
    pub phase: Phase,
    /// Position of the project that the phase is at.
    pub position: int,
    /// The manifest as far as it is assembled.
    pub manifest: RepoView,
    /// Why the projects that were left out could not describe themselves.
    pub omitted: Seq<Seq<char>>,
    /// Why the run failed, once it has.
    pub failure: ErrorView,
}

impl View for IndexBuilder {
    type V = BuilderView;

    closed spec fn view(&self) -> BuilderView {
        BuilderView {
            projects: str_views(self.projects@),
            phase: self.phase,
            position: self.position as int,
            manifest: self.manifest@,
            omitted: str_views(self.omitted@),
            failure: self.failure@,
        }
    }
}

/// A run that has asked for nothing yet: it begins with the build of the
/// first project, or with the writing of an empty manifest where there is
/// no project.
pub open spec fn begin(projects: Seq<Seq<char>>, author: MaintainerView, now: Timestamp) -> BuilderView {
    BuilderView {
        projects,
        phase: if projects.len() > 0 {
            Phase::Building
        } else {
            Phase::Writing
        },
        position: 0,
        manifest: RepoView { author, last_modified: now, packages: Seq::empty() },
        omitted: Seq::empty(),
        failure: ErrorView { kind: ErrorKind::Other, message: Seq::empty(), causes: Seq::empty() },
    }
}

/// A run is in order where its position lies within the projects while
/// a project is being dealt with.
pub open spec fn in_order(b: BuilderView) -> bool {
    match b.phase {
        Phase::Building | Phase::Copying | Phase::Collecting => 0 <= b.position
            < b.projects.len(),
        _ => true,
    }
}

/// The work that a run asks for.
pub open spec fn work_of(b: BuilderView) -> WorkView {
    match b.phase {
        Phase::Building => WorkView::Build(b.projects[b.position]),
        Phase::Copying => WorkView::Copy {
            from: artifacts_of(b.projects[b.position]),
            into: PACKAGES_DIR@,
        },
        Phase::Collecting => WorkView::Describe(b.projects[b.position]),
        Phase::Writing => WorkView::Write { path: MANIFEST_FILE@, manifest: b.manifest },
        Phase::Done => WorkView::Stop(Ok(())),
        Phase::Failed => WorkView::Stop(Err(b.failure)),
    }
}

/// The run after a fatal failure.
pub open spec fn failed(b: BuilderView, cause: Seq<char>) -> BuilderView {
    BuilderView {
        phase: Phase::Failed,
        failure: ErrorView { kind: ErrorKind::Fatal, message: cause, causes: Seq::empty() },
        ..b
    }
}

/// The run after the project at the position has been dealt with in the
/// metadata phase.
pub open spec fn described_next(b: BuilderView) -> BuilderView {
    if b.position + 1 < b.projects.len() {
        BuilderView { position: b.position + 1, ..b }
    } else {
        BuilderView { phase: Phase::Writing, position: 0, ..b }
    }
}

/// The run after the news of the work that it asked for.
///
/// In the build phase any failure is fatal. In the metadata phase a project
/// that cannot describe itself is left out and the run goes on. News that
/// do not answer the work are fatal, and a run that has ended stays as it
/// is.
pub open spec fn after(b: BuilderView, news: NewsView) -> BuilderView {
    match (b.phase, news) {
        (Phase::Building, NewsView::Built { build: Ok(_), package: Ok(_) }) => BuilderView {
            phase: Phase::Copying,
            ..b
        },
        (Phase::Building, NewsView::Built { build: Err(c), package: _ }) => failed(b, c),
        (Phase::Building, NewsView::Built { build: Ok(_), package: Err(c) }) => failed(b, c),
        (Phase::Copying, NewsView::Copied(Ok(_))) => if b.position + 1 < b.projects.len() {
            BuilderView { phase: Phase::Building, position: b.position + 1, ..b }
        } else {
            BuilderView { phase: Phase::Collecting, position: 0, ..b }
        },
        (Phase::Copying, NewsView::Copied(Err(c))) => failed(b, c),
        (Phase::Collecting, NewsView::Described(Ok(r))) => described_next(
            BuilderView {
                manifest: RepoView {
                    packages: b.manifest.packages.push(
                        served_entry(r, b.manifest.last_modified),
                    ),
                    ..b.manifest
                },
                ..b
            },
        ),
        (Phase::Collecting, NewsView::Described(Err(c))) => described_next(
            BuilderView { omitted: b.omitted.push(c), ..b },
        ),
        (Phase::Writing, NewsView::Written(Ok(_))) => BuilderView { phase: Phase::Done, ..b },
        (Phase::Writing, NewsView::Written(Err(c))) => failed(b, c),
        (Phase::Done, _) => b,
        (Phase::Failed, _) => b,
        _ => failed(b, "the news do not answer the work"@),
    }
}

impl IndexBuilder {
    #[verifier::type_invariant]
    spec fn inv(self) -> bool {
        match self.phase {
            Phase::Building | Phase::Copying | Phase::Collecting => self.position
                < self.projects.len(),
            _ => true,
        }
    }

    /// A run over `projects` that has asked for nothing yet.
    pub fn start(projects: Vec<String>, author: Maintainer, now: Timestamp) -> (b: IndexBuilder)
        ensures
            b@ == begin(str_views(projects@), author@, now),
    {
        let phase = if projects.len() > 0 {
            Phase::Building
        } else {
            Phase::Writing
        };
        let b = IndexBuilder {
            projects,
            phase,
            position: 0,
            manifest: RepoData { author, last_modified: now, packages: Vec::new() },
            omitted: Vec::new(),
            failure: Error::of_kind(ErrorKind::Other),
        };
        proof {
            assert(b@.manifest.packages =~= Seq::<MetaView>::empty());
            assert(b@.omitted =~= Seq::<Seq<char>>::empty());
            assert(b@.projects.len() == projects.len());
        }
        b
    }

    /// The work that the run asks for.
    pub fn work(&self) -> (w: Work<'_>)
        ensures
            in_order(self@),
            w@ == work_of(self@),
    {
        proof {
            use_type_invariant(self);
            assert(self@.projects.len() == self.projects.len());
        }
        match self.phase {
            Phase::Building => Work::Build(self.projects[self.position].as_str()),
            Phase::Copying => Work::Copy {
                from: artifacts_in(self.projects[self.position].as_str()),
                into: PACKAGES_DIR,
            },
            Phase::Collecting => Work::Describe(self.projects[self.position].as_str()),
            Phase::Writing => Work::Write { path: MANIFEST_FILE, manifest: &self.manifest },
            Phase::Done => Work::Stop(Ok(())),
            Phase::Failed => Work::Stop(Err(&self.failure)),
        }
    }

    fn fail(self, cause: String) -> (r: IndexBuilder)
        ensures
            r@ == failed(self@, cause@),
    {
        let failure = Error::new(ErrorKind::Fatal, cause, Vec::new());
        assert(failure@.causes =~= Seq::<Seq<char>>::empty());
        IndexBuilder {
            projects: self.projects,
            phase: Phase::Failed,
            position: self.position,
            manifest: self.manifest,
            omitted: self.omitted,
            failure,
        }
    }

    fn describe_next(
        projects: Vec<String>,
        position: usize,
        manifest: RepoData,
        omitted: Vec<String>,
        failure: Error,
    ) -> (r: IndexBuilder)
        requires
            position < projects.len(),
        ensures
            r@ == described_next(
                BuilderView {
                    projects: str_views(projects@),
                    phase: Phase::Collecting,
                    position: position as int,
                    manifest: manifest@,
                    omitted: str_views(omitted@),
                    failure: failure@,
                },
            ),
    {
        proof {
            assert(str_views(projects@).len() == projects.len());
        }
        if position + 1 < projects.len() {
            IndexBuilder {
                projects,
                phase: Phase::Collecting,
                position: position + 1,
                manifest,
                omitted,
                failure,
            }
        } else {
            IndexBuilder { projects, phase: Phase::Writing, position: 0, manifest, omitted, failure }
        }
    }

    /// The run after the news of the work that it asked for.
    pub fn advance(self, news: News) -> (r: IndexBuilder)
        ensures
            r@ == after(self@, news@),
    {
        proof {
            use_type_invariant(&self);
            assert(self@.projects.len() == self.projects.len());
        }
        match self.phase {
            Phase::Done => self,
            Phase::Failed => self,
            Phase::Building => match news {
                News::Built { build: Ok(_), package: Ok(_) } => IndexBuilder {
                    projects: self.projects,
                    phase: Phase::Copying,
                    position: self.position,
                    manifest: self.manifest,
                    omitted: self.omitted,
                    failure: self.failure,
                },
                News::Built { build: Err(c), package: _ } => self.fail(c),
                News::Built { build: Ok(_), package: Err(c) } => self.fail(c),
                _ => self.fail(string_of(&chars_of("the news do not answer the work"))),
            },
            Phase::Copying => match news {
                News::Copied(Ok(_)) => {
                    if self.position + 1 < self.projects.len() {
                        IndexBuilder {
                            projects: self.projects,
                            phase: Phase::Building,
                            position: self.position + 1,
                            manifest: self.manifest,
                            omitted: self.omitted,
                            failure: self.failure,
                        }
                    } else {
                        IndexBuilder {
                            projects: self.projects,
                            phase: Phase::Collecting,
                            position: 0,
                            manifest: self.manifest,
                            omitted: self.omitted,
                            failure: self.failure,
                        }
                    }
                },
                News::Copied(Err(c)) => self.fail(c),
                _ => self.fail(string_of(&chars_of("the news do not answer the work"))),
            },
            Phase::Collecting => match news {
                News::Described(Ok(info)) => {
                    let IndexBuilder { projects, phase, position, manifest, omitted, failure } =
                        self;
                    let RepoData { author, last_modified, packages } = manifest;
                    let mut packages = packages;
                    let m = entry_for(info, last_modified);
                    assert(metas_view(packages@.push(m)) =~= metas_view(packages@).push(m@));
                    packages.push(m);
                    IndexBuilder::describe_next(
                        projects,
                        position,
                        RepoData { author, last_modified, packages },
                        omitted,
                        failure,
                    )
                },
                News::Described(Err(c)) => {
                    let IndexBuilder { projects, phase, position, manifest, omitted, failure } =
                        self;
                    let mut omitted = omitted;
                    assert(str_views(omitted@.push(c)) =~= str_views(omitted@).push(c@));
                    omitted.push(c);
                    IndexBuilder::describe_next(projects, position, manifest, omitted, failure)
                },
                _ => self.fail(string_of(&chars_of("the news do not answer the work"))),
            },
            Phase::Writing => match news {
                News::Written(Ok(_)) => IndexBuilder {
                    projects: self.projects,
                    phase: Phase::Done,
                    position: self.position,
                    manifest: self.manifest,
                    omitted: self.omitted,
                    failure: self.failure,
                },
                News::Written(Err(c)) => self.fail(c),
                _ => self.fail(string_of(&chars_of("the news do not answer the work"))),
            },
        }
    }

    /// Why the projects that were left out of the manifest could not
    /// describe themselves.
    pub fn omitted(&self) -> (r: &Vec<String>)
        ensures
            str_views(r@) == self@.omitted,
    {
        &self.omitted
    }
}

/// The run after a sequence of news, each taken in turn.
pub open spec fn after_all(b: BuilderView, news: Seq<NewsView>) -> BuilderView
    decreases news.len(),
{
    if news.len() == 0 {
        b
    } else {
        after(after_all(b, news.drop_last()), news.last())
    }
}

/// Whether the news report a failure of the build phase: of the build, of
/// the packaging, or of the copy of the artifacts.
pub open spec fn is_build_failure(news: NewsView) -> bool {
    match news {
        NewsView::Built { build, package } => build is Err || package is Err,
        NewsView::Copied(r) => r is Err,
        _ => false,
    }
}

/// A run that has failed stays failed, whatever follows.
pub proof fn lemma_failed_run_stays_failed(b: BuilderView, news: Seq<NewsView>)
    requires
        b.phase == Phase::Failed,
    ensures
        after_all(b, news) == b,
    decreases news.len(),
{
    if news.len() > 0 {
        lemma_failed_run_stays_failed(b, news.drop_last());
    }
}

/// No manifest after a failed build: once a project of the build phase has
/// failed, the run never asks for the manifest to be written, whatever is
/// reported to it afterwards.
pub proof fn lemma_build_failure_writes_no_manifest(
    b: BuilderView,
    failure: NewsView,
    later: Seq<NewsView>,
)
    requires
        b.phase == Phase::Building || b.phase == Phase::Copying,
        is_build_failure(failure),
    ensures
        after(b, failure).phase == Phase::Failed,
        after_all(after(b, failure), later).phase == Phase::Failed,
        !(work_of(after_all(after(b, failure), later)) is Write),
        work_of(after_all(after(b, failure), later)) is Stop,
{
    lemma_failed_run_stays_failed(after(b, failure), later);
}

/// The news of a metadata phase: one description for each project.
pub open spec fn described_news(v: Seq<DescriptionView>) -> Seq<NewsView> {
    v.map_values(|d: DescriptionView| NewsView::Described(d))
}

/// The metadata phase is tolerant: whatever the projects from the position
/// on answer when asked to describe themselves, the run goes on to the
/// writing of the manifest, and the manifest then holds, besides what it
/// held, an entry for each project that described itself and none for the
/// others.
pub proof fn lemma_metadata_phase_omits_only_failures(b: BuilderView, v: Seq<DescriptionView>)
    requires
        b.phase == Phase::Collecting,
        0 <= b.position < b.projects.len(),
        v.len() == b.projects.len() - b.position,
    ensures
        after_all(b, described_news(v)).phase == Phase::Writing,
        after_all(b, described_news(v)).manifest == (RepoView {
            packages: b.manifest.packages + collected(v, b.manifest.last_modified),
            ..b.manifest
        }),
        work_of(after_all(b, described_news(v))) == (WorkView::Write {
            path: MANIFEST_FILE@,
            manifest: RepoView {
                packages: b.manifest.packages + collected(v, b.manifest.last_modified),
                ..b.manifest
            },
        }),
{
    lemma_metadata_prefix(b, v, v.len() as int);
    assert(v.take(v.len() as int) == v);
}

/// The run after the first `k` descriptions of a metadata phase.
pub proof fn lemma_metadata_prefix(b: BuilderView, v: Seq<DescriptionView>, k: int)
    requires
        b.phase == Phase::Collecting,
        0 <= b.position < b.projects.len(),
        v.len() == b.projects.len() - b.position,
        0 <= k <= v.len(),
    ensures
        after_all(b, described_news(v.take(k))).manifest == (RepoView {
            packages: b.manifest.packages + collected(v.take(k), b.manifest.last_modified),
            ..b.manifest
        }),
        after_all(b, described_news(v.take(k))).projects == b.projects,
        k < v.len() ==> after_all(b, described_news(v.take(k))).phase == Phase::Collecting
            && after_all(b, described_news(v.take(k))).position == b.position + k,
        k == v.len() ==> after_all(b, described_news(v.take(k))).phase == Phase::Writing,
    decreases k,
{
    let now = b.manifest.last_modified;
    if k == 0 {
        assert(v.take(0) =~= Seq::<DescriptionView>::empty());
        assert(described_news(v.take(0)) =~= Seq::<NewsView>::empty());
        assert(b.manifest.packages + collected(v.take(0), now) =~= b.manifest.packages);
    } else {
        lemma_metadata_prefix(b, v, k - 1);
        let pre = v.take(k);
        assert(pre.drop_last() =~= v.take(k - 1));
        assert(pre.last() == v[k - 1]);
        assert(described_news(pre).drop_last() =~= described_news(v.take(k - 1)));
        assert(described_news(pre).last() == NewsView::Described(v[k - 1]));
        let mid = after_all(b, described_news(v.take(k - 1)));
        assert(after_all(b, described_news(pre)) == after(mid, NewsView::Described(v[k - 1])));
        match v[k - 1] {
            Ok(r) => {
                assert(b.manifest.packages + collected(pre, now) =~= (b.manifest.packages
                    + collected(v.take(k - 1), now)).push(served_entry(r, now)));
            },
            Err(_) => {},
        }
    }
}

/// One project fails to describe itself: the manifest is written all the
/// same and lacks only the entry of that project.
pub proof fn lemma_metadata_failure_omits_one(
    b: BuilderView,
    before: Seq<RecordView>,
    cause: Seq<char>,
    behind: Seq<RecordView>,
)
    requires
        b.phase == Phase::Collecting,
        b.position == 0,
        b.manifest.packages.len() == 0,
        b.projects.len() == before.len() + 1 + behind.len(),
    ensures
        work_of(
            after_all(
                b,
                described_news(
                    before.map_values(|r: RecordView| Ok::<RecordView, Seq<char>>(r)) + seq![
                        Err::<RecordView, Seq<char>>(cause),
                    ] + behind.map_values(|r: RecordView| Ok::<RecordView, Seq<char>>(r)),
                ),
            ),
        ) == (WorkView::Write {
            path: MANIFEST_FILE@,
            manifest: RepoView {
                packages: (before + behind).map_values(
                    |r: RecordView| served_entry(r, b.manifest.last_modified),
                ),
                ..b.manifest
            },
        }),
{
    let now = b.manifest.last_modified;
    let ok = |r: RecordView| Ok::<RecordView, Seq<char>>(r);
    let entry = |r: RecordView| served_entry(r, now);
    let v = before.map_values(ok) + seq![Err::<RecordView, Seq<char>>(cause)] + behind.map_values(
        ok,
    );
    lemma_metadata_phase_omits_only_failures(b, v);
    lemma_collected_all(before, now);
    lemma_collected_all(behind, now);
    lemma_collected_concat(before.map_values(ok), seq![Err::<RecordView, Seq<char>>(cause)], now);
    lemma_collected_concat(
        before.map_values(ok) + seq![Err::<RecordView, Seq<char>>(cause)],
        behind.map_values(ok),
        now,
    );
    let one = seq![Err::<RecordView, Seq<char>>(cause)];
    assert(one.drop_last() =~= Seq::<DescriptionView>::empty());
    assert(collected(one.drop_last(), now) =~= Seq::<MetaView>::empty());
    assert(one.last() == Err::<RecordView, Seq<char>>(cause));
    assert(collected(one, now) =~= Seq::<MetaView>::empty());
    assert(b.manifest.packages + collected(v, now) =~= (before + behind).map_values(entry));
}

/// Where every project describes itself, every project has its entry.
pub proof fn lemma_collected_all(rs: Seq<RecordView>, now: Timestamp)
    ensures
        collected(rs.map_values(|r: RecordView| Ok::<RecordView, Seq<char>>(r)), now)
            == rs.map_values(|r: RecordView| served_entry(r, now)),
    decreases rs.len(),
{
    let ok = |r: RecordView| Ok::<RecordView, Seq<char>>(r);
    let entry = |r: RecordView| served_entry(r, now);
    if rs.len() == 0 {
        assert(collected(rs.map_values(ok), now) =~= rs.map_values(entry));
    } else {
        lemma_collected_all(rs.drop_last(), now);
        assert(rs.map_values(ok).drop_last() =~= rs.drop_last().map_values(ok));
        assert(rs.map_values(ok).last() == Ok::<RecordView, Seq<char>>(rs.last()));
        assert(rs.drop_last().map_values(entry).push(entry(rs.last())) =~= rs.map_values(entry));
    }
}

/// The entries of two runs of projects are those of the first followed by
/// those of the second.
pub proof fn lemma_collected_concat(a: Seq<DescriptionView>, b: Seq<DescriptionView>, now: Timestamp)
    ensures
        collected(a + b, now) == collected(a, now) + collected(b, now),
    decreases b.len(),
{
    if b.len() == 0 {
        assert(a + b =~= a);
        assert(collected(a, now) + collected(b, now) =~= collected(a, now));
    } else {
        lemma_collected_concat(a, b.drop_last(), now);
        assert((a + b).drop_last() =~= a + b.drop_last());
        assert((a + b).last() == b.last());
        match b.last() {
            Ok(r) => {
                assert((collected(a, now) + collected(b.drop_last(), now)).push(
                    served_entry(r, now),
                ) =~= collected(a, now) + collected(b, now));
            },
            Err(_) => {},
        }
    }
}

/// The news of a build phase in which every one of `n` projects is built,
/// packaged and copied without failure.
pub open spec fn built_news(n: nat) -> Seq<NewsView>
    decreases n,
{
    if n == 0 {
        Seq::empty()
    } else {
        built_news((n - 1) as nat) + seq![
            NewsView::Built { build: Ok(()), package: Ok(()) },
            NewsView::Copied(Ok(())),
        ]
    }
}

/// News taken one after the other are taken in two runs as well.
pub proof fn lemma_after_all_concat(b: BuilderView, first: Seq<NewsView>, then: Seq<NewsView>)
    ensures
        after_all(b, first + then) == after_all(after_all(b, first), then),
    decreases then.len(),
{
    if then.len() == 0 {
        assert(first + then =~= first);
    } else {
        lemma_after_all_concat(b, first, then.drop_last());
        assert((first + then).drop_last() =~= first + then.drop_last());
        assert((first + then).last() == then.last());
    }
}

/// The run after the first `k` projects went through the build phase
/// without failure: it stands before the build of the next project, or,
/// after the last, before the first description.
pub proof fn lemma_build_prefix(b: BuilderView, k: nat)
    requires
        b.phase == Phase::Building,
        b.position == 0,
        b.projects.len() > 0,
        k <= b.projects.len(),
    ensures
        k < b.projects.len() ==> after_all(b, built_news(k)) == (BuilderView {
            position: k as int,
            ..b
        }),
        k == b.projects.len() ==> after_all(b, built_news(k)) == (BuilderView {
            phase: Phase::Collecting,
            ..b
        }),
    decreases k,
{
    if k > 0 {
        lemma_build_prefix(b, (k - 1) as nat);
        let before = built_news((k - 1) as nat);
        let built = NewsView::Built { build: Ok(()), package: Ok(()) };
        let copied = NewsView::Copied(Ok(()));
        let pair = seq![built, copied];
        lemma_after_all_concat(b, before, pair);
        let mid = after_all(b, before);
        assert(pair.drop_last() =~= seq![built]);
        assert(pair.drop_last().drop_last() =~= Seq::<NewsView>::empty());
        assert(after_all(mid, pair.drop_last().drop_last()) == mid);
        assert(after_all(mid, pair.drop_last()) == after(mid, built));
        assert(after_all(mid, pair) == after(after(mid, built), copied));
    }
}

/// The run of the index builder in which no build fails: whatever the
/// projects answer when asked to describe themselves, the manifest is
/// written, by the author and dated as the run began, with an entry for
/// each project that described itself and none for the others.
pub proof fn lemma_successful_build_writes_manifest(
    projects: Seq<Seq<char>>,
    author: MaintainerView,
    now: Timestamp,
    v: Seq<DescriptionView>,
)
    requires
        projects.len() > 0,
        v.len() == projects.len(),
    ensures
        work_of(
            after_all(begin(projects, author, now), built_news(projects.len()) + described_news(v)),
        ) == (WorkView::Write {
            path: MANIFEST_FILE@,
            manifest: RepoView { author, last_modified: now, packages: collected(v, now) },
        }),
{
    let b = begin(projects, author, now);
    lemma_after_all_concat(b, built_news(projects.len()), described_news(v));
    lemma_build_prefix(b, projects.len());
    let mid = after_all(b, built_news(projects.len()));
    lemma_metadata_phase_omits_only_failures(mid, v);
    assert(b.manifest.packages + collected(v, now) =~= collected(v, now));
}

} // verus!
