//! The configured sources of the catalog: the grammar of the source list
//! and the merging of what the sources answered.

use crate::error::{Error, ErrorView};
use crate::repo::{attempt_view, attempts_view, metas_view, AttemptView, MetaView, PackageMetaData,
    RepoData};
use crate::text::{blank, chars_of, index_of, is_blank, lemma_index_of, position, same_str,
    slice_of, split, split_on, string_of, trim, trim_bounds, views};
use vstd::prelude::*;
use vstd::std_specs::iter::IteratorSpec;

verus! {

/// The kinds of source that a list may name.
#[derive(Debug, Clone, Copy, PartialEq, Eq)]
pub enum RepoType {
    /// An archive mirror, written `apt`.
    Apt,
    /// A native repository, written `ipm`.
    Ipm,
}

/// The kind that a word names.
pub open spec fn type_of(word: Seq<char>) -> Option<RepoType> {
    if word == "apt"@ {
        Some(RepoType::Apt)
    } else if word == "ipm"@ {
        Some(RepoType::Ipm)
    } else {
        None
    }
}

impl RepoType {
    /// The kind that `word` names, if it names one.
    pub fn from_str(word: &str) -> (r: Option<RepoType>)
        ensures
            r == type_of(word@),
    {
        if same_str(word, "apt") {
            Some(RepoType::Apt)
        } else if same_str(word, "ipm") {
            Some(RepoType::Ipm)
        } else {
            None
        }
    }

    /// The word that names the kind.
    pub fn name(&self) -> (r: &'static str)
        ensures
            type_of(r@) == Some(*self),
    {
        proof {
            reveal_strlit("apt");
            reveal_strlit("ipm");
            assert("apt"@ != "ipm"@) by {
                assert("apt"@[0] != "ipm"@[0]);
            }
        }
        match self {
            RepoType::Apt => "apt",
            RepoType::Ipm => "ipm",
        }
    }
}

/// How a source is fetched.
#[derive(Debug, Clone)]
pub enum FetchPlan {
    /// By the manifest of a native repository.
    Manifest,
    /// By the one index of a flat archive.
    FlatIndex,
    /// By the indices of an archive mirror, in a session.
    Indices(crate::apt::AptInfo),
}

impl View for FetchPlan {
    type V = PlanView;

    open spec fn view(&self) -> PlanView {
        match self {
            FetchPlan::Manifest => PlanView::Manifest,
            FetchPlan::FlatIndex => PlanView::FlatIndex,
            FetchPlan::Indices(info) => PlanView::Indices(info@),
        }
    }
}

/// One configured source. It is made once, from a line of a source list or
/// by the caller, and never changed; its variant decides which adapter
/// fetches it.
#[derive(Debug, Clone)]
pub enum RepoSource {
    /// An archive mirror. Without suites it is a flat archive, whose one
    /// index lies beside `base_uri`.
    Apt {
        base_uri: String,
        suites: Vec<String>,
        components: Vec<String>,
        architectures: Vec<String>,
    },
    /// A native repository, whose manifest lies beside `base_url`.
    Native { base_url: String },
}

/// One configured source, as plain values.
pub enum SourceView {
    Apt {
        base_uri: Seq<char>,
        suites: Seq<Seq<char>>,
        components: Seq<Seq<char>>,
        architectures: Seq<Seq<char>>,
    },
    Native { base_url: Seq<char> },
}

impl View for RepoSource {
    type V = SourceView;

    open spec fn view(&self) -> SourceView {
        match self {
            RepoSource::Apt { base_uri, suites, components, architectures } => SourceView::Apt {
                base_uri: base_uri@,
                suites: crate::text::str_views(suites@),
                components: crate::text::str_views(components@),
                architectures: crate::text::str_views(architectures@),
            },
            RepoSource::Native { base_url } => SourceView::Native { base_url: base_url@ },
        }
    }
}

/// The source that a line of a source list names: a flat archive for
/// `apt`, a native repository for `ipm`.
pub open spec fn source_of(repo_type: RepoType, url: Seq<char>) -> SourceView {
    match repo_type {
        RepoType::Apt => SourceView::Apt {
            base_uri: url,
            suites: Seq::empty(),
            components: Seq::empty(),
            architectures: Seq::empty(),
        },
        RepoType::Ipm => SourceView::Native { base_url: url },
    }
}

/// The kind of a source.
pub open spec fn kind_of(s: SourceView) -> RepoType {
    match s {
        SourceView::Apt { .. } => RepoType::Apt,
        SourceView::Native { .. } => RepoType::Ipm,
    }
}

/// The location of a source.
pub open spec fn location_of(s: SourceView) -> Seq<char> {
    match s {
        SourceView::Apt { base_uri, .. } => base_uri,
        SourceView::Native { base_url } => base_url,
    }
}

/// How a source is fetched, as plain values.
pub enum PlanView {
    Manifest,
    FlatIndex,
    Indices(crate::apt::AptInfoView),
}

/// How a source is fetched. The choice follows from the variant of the
/// source and is made once.
pub open spec fn plan_of(s: SourceView) -> PlanView {
    match s {
        SourceView::Native { .. } => PlanView::Manifest,
        SourceView::Apt { base_uri, suites, components, architectures } => if suites.len() == 0 {
            PlanView::FlatIndex
        } else {
            PlanView::Indices(
                crate::apt::AptInfoView {
                    types: crate::apt::AptType::Deb,
                    uris: base_uri,
                    suites,
                    components,
                    architectures,
                },
            )
        },
    }
}

/// The text of a source: the word of its kind, `: ` and its location.
pub open spec fn render_source(s: SourceView) -> Seq<char> {
    (match kind_of(s) {
        RepoType::Apt => "apt"@,
        RepoType::Ipm => "ipm"@,
    }) + ": "@ + location_of(s)
}

impl RepoSource {
    /// The source that a line of a source list names.
    pub fn new(repo_type: RepoType, url: String) -> (r: RepoSource)
        ensures
            r@ == source_of(repo_type, url@),
    {
        match repo_type {
            RepoType::Apt => {
                let r = RepoSource::Apt {
                    base_uri: url,
                    suites: Vec::new(),
                    components: Vec::new(),
                    architectures: Vec::new(),
                };
                assert(r@ == source_of(repo_type, url@)) by {
                    assert(crate::text::str_views(Seq::<String>::empty()) =~= Seq::<
                        Seq<char>,
                    >::empty());
                }
                r
            },
            RepoType::Ipm => RepoSource::Native { base_url: url },
        }
    }

    /// The kind of the source.
    pub fn kind(&self) -> (r: RepoType)
        ensures
            r == kind_of(self@),
    {
        match self {
            RepoSource::Apt { .. } => RepoType::Apt,
            RepoSource::Native { .. } => RepoType::Ipm,
        }
    }

    /// The location of the source.
    pub fn location(&self) -> (r: &str)
        ensures
            r@ == location_of(self@),
    {
        match self {
            RepoSource::Apt { base_uri, .. } => base_uri.as_str(),
            RepoSource::Native { base_url } => base_url.as_str(),
        }
    }

    /// How the source is fetched: a native repository by its manifest, an
    /// archive without suites by its one flat index, an archive with suites
    /// by the binary indices of its suites, components and architectures.
    pub fn plan(&self) -> (r: FetchPlan)
        ensures
            r@ == plan_of(self@),
    {
        match self {
            RepoSource::Native { .. } => FetchPlan::Manifest,
            RepoSource::Apt { base_uri, suites, components, architectures } => {
                assert(crate::text::str_views(suites@).len() == suites.len());
                if suites.len() == 0 {
                    FetchPlan::FlatIndex
                } else {
                    FetchPlan::Indices(
                        crate::apt::AptInfo {
                            types: crate::apt::AptType::Deb,
                            uris: base_uri.clone(),
                            suites: copies(suites),
                            components: copies(components),
                            architectures: copies(architectures),
                        },
                    )
                }
            },
        }
    }

    /// The text of the source, as the list of sources shows it.
    pub fn to_string(&self) -> (r: String)
        ensures
            r@ == render_source(self@),
    {
        let mut out: Vec<char> = Vec::new();
        match self.kind() {
            RepoType::Apt => crate::text::extend_str(&mut out, "apt"),
            RepoType::Ipm => crate::text::extend_str(&mut out, "ipm"),
        }
        crate::text::extend_str(&mut out, ": ");
        crate::text::extend_str(&mut out, self.location());
        assert(out@ =~= render_source(self@));
        string_of(&out)
    }
}

fn copies(v: &Vec<String>) -> (out: Vec<String>)
    ensures
        crate::text::str_views(out@) == crate::text::str_views(v@),
{
    let mut out: Vec<String> = Vec::new();
    let mut i: usize = 0;
    while i < v.len()
        invariant
            i <= v.len(),
            out.len() == i,
            forall|k: int| 0 <= k < i ==> (#[trigger] out@[k])@ == v@[k]@,
        decreases v.len() - i,
    {
        out.push(v[i].clone());
        i = i + 1;
    }
    assert(crate::text::str_views(out@) =~= crate::text::str_views(v@));
    out
}

/// Why a line of a source list was skipped.
#[derive(Debug, Clone, Copy, PartialEq, Eq)]
pub enum Defect {
    /// The line has no `:`.
    NoSeparator,
    /// The word before the `:` names no kind of source.
    UnknownType,
}

/// A line that was skipped, with the reason.
#[derive(Debug, Clone)]
pub struct ListWarning {
    pub line: String,
    pub defect: Defect,
}

/// A line that was skipped, as plain values.
pub struct ListWarningView {
    pub line: Seq<char>,
    pub defect: Defect,
}

impl View for ListWarning {
    type V = ListWarningView;

    open spec fn view(&self) -> ListWarningView {
        ListWarningView { line: self.line@, defect: self.defect }
    }
}

/// What a source list holds: its sources, and a warning for each line that
/// was skipped.
#[derive(Debug, Clone)]
pub struct SourceList {
    pub sources: Vec<RepoSource>,
    pub warnings: Vec<ListWarning>,
}

/// What a source list holds, as plain values.
pub struct SourceListView {
    pub sources: Seq<SourceView>,
    pub warnings: Seq<ListWarningView>,
}

impl View for SourceList {
    type V = SourceListView;

    open spec fn view(&self) -> SourceListView {
        SourceListView {
            sources: self.sources@.map_values(|s: RepoSource| s@),
            warnings: self.warnings@.map_values(|w: ListWarning| w@),
        }
    }
}

/// What one line means: nothing where it is blank, a warning where it has
/// no `:` or names no kind, else a source of the kind before the first `:`
/// at the location after it, both trimmed.
pub open spec fn read_line(acc: SourceListView, line: Seq<char>) -> SourceListView {
    let colon = index_of(line, ':');
    if is_blank(line) {
        acc
    } else if colon >= line.len() {
        SourceListView {
            warnings: acc.warnings.push(ListWarningView { line, defect: Defect::NoSeparator }),
            ..acc
        }
    } else {
        match type_of(trim(line.take(colon))) {
            Some(repo_type) => SourceListView {
                sources: acc.sources.push(source_of(repo_type, trim(line.skip(colon + 1)))),
                ..acc
            },
            None => SourceListView {
                warnings: acc.warnings.push(ListWarningView { line, defect: Defect::UnknownType }),
                ..acc
            },
        }
    }
}

/// What the lines `ls` add to `acc`, in order.
pub open spec fn read_lines(acc: SourceListView, ls: Seq<Seq<char>>) -> SourceListView {
    ls.fold_left(acc, |a: SourceListView, line: Seq<char>| read_line(a, line))
}

/// What a source list means: what its lines, separated by line feeds, add
/// to the empty list.
pub open spec fn read_list(text: Seq<char>) -> SourceListView {
    read_lines(SourceListView { sources: Seq::empty(), warnings: Seq::empty() }, split(text, '\n'))
}

fn read_into(list: &mut SourceList, text: &str)
    ensures
        final(list)@ == read_lines(old(list)@, split(text@, '\n')),
{
    let ghost step = |a: SourceListView, line: Seq<char>| read_line(a, line);
    let ghost start = list@;
    let chars = chars_of(text);
    let ls = split_on(&chars, '\n');
    let ghost all = views(ls@);
    let mut i: usize = 0;
    assert(all.take(0) =~= Seq::<Seq<char>>::empty());
    while i < ls.len()
        invariant
            i <= ls.len(),
            all == views(ls@),
            step == |a: SourceListView, line: Seq<char>| read_line(a, line),
            all.take(i as int).fold_left(start, step) == list@,
        decreases ls.len() - i,
    {
        let line = &ls[i];
        let ghost before = list@;
        proof {
            let pre = all.take(i + 1);
            assert(pre.drop_last() == all.take(i as int));
            assert(pre.last() == line@);
            lemma_index_of(line@, ':');
            assert(line@.subrange(0, line.len() as int) == line@);
        }
        if !blank(line) {
            match position(line, ':', 0, line.len()) {
                None => {
                    let w = ListWarning { line: string_of(line), defect: Defect::NoSeparator };
                    assert(list.warnings@.push(w).map_values(|w: ListWarning| w@)
                        =~= before.warnings.push(w@));
                    list.warnings.push(w);
                },
                Some(colon) => {
                    assert(line@.take(colon as int) == line@.subrange(0, colon as int));
                    assert(line@.skip(colon + 1) == line@.subrange(colon + 1, line.len() as int));
                    let (a, b) = trim_bounds(line, 0, colon);
                    let word = string_of(&slice_of(line, a, b));
                    match RepoType::from_str(word.as_str()) {
                        Some(repo_type) => {
                            let (c, d) = trim_bounds(line, colon + 1, line.len());
                            let s = RepoSource::new(repo_type, string_of(&slice_of(line, c, d)));
                            assert(list.sources@.push(s).map_values(|s: RepoSource| s@)
                                =~= before.sources.push(s@));
                            list.sources.push(s);
                        },
                        None => {
                            let w = ListWarning {
                                line: string_of(line),
                                defect: Defect::UnknownType,
                            };
                            assert(list.warnings@.push(w).map_values(|w: ListWarning| w@)
                                =~= before.warnings.push(w@));
                            list.warnings.push(w);
                        },
                    }
                },
            }
        }
        i = i + 1;
    }
    assert(all.take(ls.len() as int) == all);
}

/// Reads a source list: one `type:url` per line, `type` being `apt` or
/// `ipm`. Blank lines are ignored; a line without `:` or with another type
/// is skipped with a warning, and reading goes on with the next line.
pub fn parse_repo(s: &str) -> (r: SourceList)
    ensures
        r@ == read_list(s@),
{
    let mut list = SourceList { sources: Vec::new(), warnings: Vec::new() };
    assert(list@.sources =~= Seq::<SourceView>::empty());
    assert(list@.warnings =~= Seq::<ListWarningView>::empty());
    read_into(&mut list, s);
    list
}

/// The sources of the user's list followed by those of the system's list.
/// A list that could not be read counts as empty text.
pub fn get_indexes(local_content: &str, global_content: &str) -> (r: SourceList)
    ensures
        r@ == read_lines(read_list(local_content@), split(global_content@, '\n')),
{
    let mut list = parse_repo(local_content);
    read_into(&mut list, global_content);
    list
}

/// What one source contributes to the combined catalog: its entries where
/// it answered, nothing where it failed.
pub open spec fn contribution(a: AttemptView) -> Seq<MetaView> {
    match a {
        AttemptView::Served(d) => d.packages,
        AttemptView::Refused(_) => Seq::empty(),
    }
}

/// The entries of every source that answered, in the order of the sources.
pub open spec fn merged(v: Seq<AttemptView>) -> Seq<MetaView>
    decreases v.len(),
{
    if v.len() == 0 {
        Seq::empty()
    } else {
        merged(v.drop_last()) + contribution(v.last())
    }
}

/// The errors of the sources that failed, in the order of the sources.
pub open spec fn failures(v: Seq<AttemptView>) -> Seq<ErrorView>
    decreases v.len(),
{
    if v.len() == 0 {
        Seq::empty()
    } else {
        match v.last() {
            AttemptView::Served(_) => failures(v.drop_last()),
            AttemptView::Refused(e) => failures(v.drop_last()).push(e),
        }
    }
}

/// Merges what the sources answered. Each answer is taken whole: a source
/// that failed contributes no entry and one error, and never keeps the
/// entries of another source out.
pub fn packages(answers: Vec<Result<RepoData, Error>>) -> (r: (Vec<PackageMetaData>, Vec<Error>))
    ensures
        metas_view(r.0@) == merged(attempts_view(answers@)),
        r.1@.map_values(|e: Error| e@) == failures(attempts_view(answers@)),
{
    let ghost all = attempts_view(answers@);
    let mut entries: Vec<PackageMetaData> = Vec::new();
    let mut errors: Vec<Error> = Vec::new();
    proof {
        assert(all.take(0) =~= Seq::<AttemptView>::empty());
        assert(metas_view(entries@) =~= Seq::<MetaView>::empty());
        assert(errors@.map_values(|e: Error| e@) =~= Seq::<ErrorView>::empty());
    }
    for answer in it: answers
        invariant
            it.seq() == answers@,
            all == attempts_view(answers@),
            metas_view(entries@) == merged(all.take(it.index() as int)),
            errors@.map_values(|e: Error| e@) == failures(all.take(it.index() as int)),
    {
        proof {
            let pre = all.take(it.index() + 1);
            assert(pre.drop_last() == all.take(it.index() as int));
            assert(pre.last() == attempt_view(answer));
        }
        match answer {
            Ok(d) => {
                let ghost before = metas_view(entries@);
                let mut more = d.packages;
                let ghost added = metas_view(more@);
                entries.append(&mut more);
                assert(metas_view(entries@) =~= before + added);
            },
            Err(e) => {
                assert(errors@.push(e).map_values(|e: Error| e@) =~= errors@.map_values(
                    |e: Error| e@,
                ).push(e@));
                errors.push(e);
            },
        }
    }
    assert(all.take(all.len() as int) == all);
    (entries, errors)
}

/// Failure isolation: a source that failed changes nothing of what the
/// other sources contribute. Taking its answer out of the list leaves the
/// merged entries as they are.
pub proof fn lemma_failed_source_contributes_nothing(v: Seq<AttemptView>, at: int)
    requires
        0 <= at < v.len(),
        v[at] is Refused,
    ensures
        merged(v) == merged(v.remove(at)),
    decreases v.len(),
{
    let w = v.remove(at);
    if at == v.len() - 1 {
        assert(w =~= v.drop_last());
        assert(merged(v) =~= merged(v.drop_last()));
    } else {
        lemma_failed_source_contributes_nothing(v.drop_last(), at);
        assert(w.drop_last() =~= v.drop_last().remove(at));
        assert(w.last() == v.last());
    }
}

/// One source fails, the next answers: the combined catalog holds exactly
/// the entries of the one that answered.
pub proof fn lemma_second_source_survives(e: ErrorView, d: crate::repo::RepoView)
    ensures
        merged(seq![AttemptView::Refused(e), AttemptView::Served(d)]) == d.packages,
{
    let v = seq![AttemptView::Refused(e), AttemptView::Served(d)];
    assert(v.drop_last() =~= seq![AttemptView::Refused(e)]);
    assert(v.drop_last().drop_last() =~= Seq::<AttemptView>::empty());
    assert(merged(v.drop_last().drop_last()) =~= Seq::<MetaView>::empty());
    assert(v.drop_last().last() == AttemptView::Refused(e));
    assert(merged(v.drop_last()) =~= Seq::<MetaView>::empty());
    assert(merged(v) =~= d.packages);
}

} // verus!
