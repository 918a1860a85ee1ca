//! The adapter for archive mirrors: which index files to ask for, in what
//! order, what to make of each answer, and when the whole fetch has failed.
//!
//! The adapter never talks to the network. A session names the location to
//! ask for next; the caller fetches it and hands the answer back.

use crate::control::{first_lookup, first_value, lookup, paragraphs_view, parse_paragraphs,
    parse_text, FieldView, Paragraph};
use crate::error::{Error, ErrorKind, ErrorView};
use crate::outside::{deb822_paragraphs, deb822_read, gunzip, gunzipped, utf8_text};
use crate::package::{package_of, packages_view, text_view, Package, PackageView};
use crate::record::{record_of, to_package_data, Maintainer};
use crate::relation::ControlError;
use crate::repo::{archive_url, download_path, download_url, in_archive, metas_view, resolved,
    MetaView, PackageMetaData, RepoData, RepoView, Timestamp};
use crate::control::MaintainerView;
use crate::text::{chars_of, extend_str, matches_at, occurs_at, str_views, string_of};
use crate::www::{URL, UrlView};
use vstd::prelude::*;
use vstd::std_specs::iter::IteratorSpec;
use vstd::utf8::{decode_utf8, valid_utf8};

verus! {

/// The two kinds of archive index: binary packages and sources.
#[derive(Debug, Clone, Copy, PartialEq, Eq)]
pub enum AptType {
    Deb,
    DebSrc,
}

impl Default for AptType {
    fn default() -> (r: AptType)
        ensures
            r == AptType::Deb,
    {
        AptType::Deb
    }
}

impl AptType {
    /// The name of the kind as source lists write it.
    pub fn name(&self) -> (r: &'static str)
        ensures
            r@ == (match self {
                AptType::Deb => "deb"@,
                AptType::DebSrc => "deb-src"@,
            }),
    {
        match self {
            AptType::Deb => "deb",
            AptType::DebSrc => "deb-src",
        }
    }
}

/// An archive mirror and the parts of it to index.
#[derive(Debug, Clone)]
pub struct AptInfo {
    pub types: AptType,
    pub uris: String,
    pub suites: Vec<String>,
    pub components: Vec<String>,
    pub architectures: Vec<String>,
}

/// A mirror and the parts of it to index, as plain values.
pub struct AptInfoView {
    pub types: AptType,
    pub uris: Seq<char>,
    pub suites: Seq<Seq<char>>,
    pub components: Seq<Seq<char>>,
    pub architectures: Seq<Seq<char>>,
}

impl View for AptInfo {
    type V = AptInfoView;

    open spec fn view(&self) -> AptInfoView {
        AptInfoView {
            types: self.types,
            uris: self.uris@,
            suites: str_views(self.suites@),
            components: str_views(self.components@),
            architectures: str_views(self.architectures@),
        }
    }
}

/// One index of a mirror: a suite, a component and, for binary packages,
/// an architecture.
#[derive(Debug, Clone)]
pub struct Target {
    pub suite: String,
    pub component: String,
    pub architecture: Option<String>,
}

/// One index of a mirror, as plain values.
pub struct TargetView {
    pub suite: Seq<char>,
    pub component: Seq<char>,
    pub architecture: Option<Seq<char>>,
}

impl View for Target {
    type V = TargetView;

    open spec fn view(&self) -> TargetView {
        TargetView {
            suite: self.suite@,
            component: self.component@,
            architecture: text_view(self.architecture),
        }
    }
}

/// The views of a sequence of targets.
pub open spec fn targets_view(v: Seq<Target>) -> Seq<TargetView> {
    v.map_values(|t: Target| t@)
}

/// The binary indices of one suite and component: one for each
/// architecture.
pub open spec fn per_arch(suite: Seq<char>, component: Seq<char>, archs: Seq<Seq<char>>) -> Seq<
    TargetView,
> {
    archs.map_values(|a: Seq<char>| TargetView { suite, component, architecture: Some(a) })
}

/// The indices of one suite and component.
pub open spec fn of_component(
    kind: AptType,
    suite: Seq<char>,
    component: Seq<char>,
    archs: Seq<Seq<char>>,
) -> Seq<TargetView> {
    match kind {
        AptType::Deb => per_arch(suite, component, archs),
        AptType::DebSrc => seq![TargetView { suite, component, architecture: None }],
    }
}

/// The indices of one suite: those of each component, in order.
pub open spec fn per_component(
    kind: AptType,
    suite: Seq<char>,
    components: Seq<Seq<char>>,
    archs: Seq<Seq<char>>,
) -> Seq<TargetView>
    decreases components.len(),
{
    if components.len() == 0 {
        Seq::empty()
    } else {
        per_component(kind, suite, components.drop_last(), archs) + of_component(
            kind,
            suite,
            components.last(),
            archs,
        )
    }
}

/// The indices of a mirror: those of each suite, in order.
pub open spec fn per_suite(
    kind: AptType,
    suites: Seq<Seq<char>>,
    components: Seq<Seq<char>>,
    archs: Seq<Seq<char>>,
) -> Seq<TargetView>
    decreases suites.len(),
{
    if suites.len() == 0 {
        Seq::empty()
    } else {
        per_suite(kind, suites.drop_last(), components, archs) + per_component(
            kind,
            suites.last(),
            components,
            archs,
        )
    }
}

/// Every index that `info` asks for: suites outermost, then components,
/// then architectures.
pub open spec fn targets_of(info: AptInfoView) -> Seq<TargetView> {
    per_suite(info.types, info.suites, info.components, info.architectures)
}

/// The file of an index below the directory of its suite and component.
pub open spec fn index_file(t: TargetView) -> Seq<char> {
    match t.architecture {
        Some(a) => "binary-"@ + a + "/Packages"@,
        None => "source/Sources"@,
    }
}

/// The location of an index: `{uris}/dists/{suite}/{component}/` and the
/// index file, with `.gz` behind it for the compressed variant.
pub open spec fn index_url(uris: Seq<char>, t: TargetView, compressed: bool) -> Seq<char> {
    uris + "/dists/"@ + t.suite + "/"@ + t.component + "/"@ + index_file(t) + (if compressed {
        ".gz"@
    } else {
        Seq::empty()
    })
}

/// The location of the index `t` of the mirror at `uris`.
pub fn candidate(uris: &str, t: &Target, compressed: bool) -> (r: String)
    ensures
        r@ == index_url(uris@, t@, compressed),
{
    let mut out = chars_of(uris);
    extend_str(&mut out, "/dists/");
    extend_str(&mut out, t.suite.as_str());
    extend_str(&mut out, "/");
    extend_str(&mut out, t.component.as_str());
    extend_str(&mut out, "/");
    match &t.architecture {
        Some(a) => {
            extend_str(&mut out, "binary-");
            extend_str(&mut out, a.as_str());
            extend_str(&mut out, "/Packages");
        },
        None => {
            extend_str(&mut out, "source/Sources");
        },
    }
    if compressed {
        extend_str(&mut out, ".gz");
    }
    assert(out@ =~= index_url(uris@, t@, compressed));
    string_of(&out)
}

/// Every index that `info` asks for, in the order in which they are
/// fetched.
pub fn targets(info: &AptInfo) -> (out: Vec<Target>)
    ensures
        targets_view(out@) == targets_of(info@),
{
    let ghost kind = info.types;
    let ghost suites = str_views(info.suites@);
    let ghost comps = str_views(info.components@);
    let ghost archs = str_views(info.architectures@);
    let mut out: Vec<Target> = Vec::new();
    let mut i: usize = 0;
    assert(targets_view(out@) =~= per_suite(kind, suites.take(0), comps, archs));
    while i < info.suites.len()
        invariant
            i <= info.suites.len(),
            kind == info.types,
            suites == str_views(info.suites@),
            comps == str_views(info.components@),
            archs == str_views(info.architectures@),
            targets_view(out@) == per_suite(kind, suites.take(i as int), comps, archs),
        decreases info.suites.len() - i,
    {
        let suite = &info.suites[i];
        let ghost before = targets_view(out@);
        let mut j: usize = 0;
        assert(before + per_component(kind, suite@, comps.take(0), archs) =~= before);
        while j < info.components.len()
            invariant
                j <= info.components.len(),
                kind == info.types,
                comps == str_views(info.components@),
                archs == str_views(info.architectures@),
                targets_view(out@) == before + per_component(
                    kind,
                    suite@,
                    comps.take(j as int),
                    archs,
                ),
            decreases info.components.len() - j,
        {
            let component = &info.components[j];
            let ghost mid = targets_view(out@);
            proof {
                let pre = comps.take(j + 1);
                assert(pre.drop_last() == comps.take(j as int));
                assert(pre.last() == component@);
            }
            match info.types {
                AptType::Deb => {
                    let mut k: usize = 0;
                    assert(mid + per_arch(suite@, component@, archs.take(0)) =~= mid);
                    while k < info.architectures.len()
                        invariant
                            k <= info.architectures.len(),
                            archs == str_views(info.architectures@),
                            targets_view(out@) == mid + per_arch(
                                suite@,
                                component@,
                                archs.take(k as int),
                            ),
                        decreases info.architectures.len() - k,
                    {
                        let arch = &info.architectures[k];
                        let t = Target {
                            suite: suite.clone(),
                            component: component.clone(),
                            architecture: Some(arch.clone()),
                        };
                        proof {
                            assert(archs.take(k + 1) == archs.take(k as int).push(arch@));
                            assert(per_arch(suite@, component@, archs.take(k as int).push(arch@))
                                =~= per_arch(suite@, component@, archs.take(k as int)).push(t@));
                            assert(targets_view(out@.push(t)) =~= targets_view(out@).push(t@));
                        }
                        out.push(t);
                        k = k + 1;
                    }
                    assert(archs.take(info.architectures.len() as int) == archs);
                },
                AptType::DebSrc => {
                    let t = Target {
                        suite: suite.clone(),
                        component: component.clone(),
                        architecture: None,
                    };
                    assert(targets_view(out@.push(t)) =~= targets_view(out@) + seq![t@]);
                    out.push(t);
                },
            }
            assert(targets_view(out@) =~= before + per_component(
                kind,
                suite@,
                comps.take(j + 1),
                archs,
            ));
            j = j + 1;
        }
        proof {
            assert(comps.take(info.components.len() as int) == comps);
            let pre = suites.take(i + 1);
            assert(pre.drop_last() == suites.take(i as int));
            assert(pre.last() == suite@);
        }
        i = i + 1;
    }
    assert(suites.take(info.suites.len() as int) == suites);
    out
}

/// Whether `s` ends with `p`.
pub open spec fn ends_with(s: Seq<char>, p: Seq<char>) -> bool {
    occurs_at(s, p, s.len() - p.len())
}

/// The text of a body, or why it has none: a compressed body is first
/// decompressed, and the bytes must be UTF-8.
pub open spec fn body_text(compressed: bool, body: Seq<u8>) -> Result<Seq<char>, Seq<char>> {
    let raw = if compressed {
        gunzipped(body)
    } else {
        Some(body)
    };
    match raw {
        None => Err("not a gzip stream"@),
        Some(b) => if valid_utf8(b) {
            Ok(decode_utf8(b))
        } else {
            Err("not UTF-8 text"@)
        },
    }
}

fn text_of_body(compressed: bool, body: &Vec<u8>) -> (r: Result<String, String>)
    ensures
        match r {
            Ok(t) => body_text(compressed, body@) == Ok::<Seq<char>, Seq<char>>(t@),
            Err(c) => body_text(compressed, body@) == Err::<Seq<char>, Seq<char>>(c@),
        },
{
    if compressed {
        match gunzip(body) {
            None => Err(string_of(&chars_of("not a gzip stream"))),
            Some(raw) => match utf8_text(&raw) {
                Some(t) => Ok(t),
                None => Err(string_of(&chars_of("not UTF-8 text"))),
            },
        }
    } else {
        match utf8_text(body) {
            Some(t) => Ok(t),
            None => Err(string_of(&chars_of("not UTF-8 text"))),
        }
    }
}

/// The text of the body that was fetched from `url`: decompressed where the
/// location ends in `.gz`, then decoded as UTF-8. The error is the cause.
pub fn decode_body(url: &str, body: &Vec<u8>) -> (r: Result<String, String>)
    ensures
        match r {
            Ok(t) => body_text(ends_with(url@, ".gz"@), body@) == Ok::<Seq<char>, Seq<char>>(t@),
            Err(c) => body_text(ends_with(url@, ".gz"@), body@) == Err::<Seq<char>, Seq<char>>(
                c@,
            ),
        },
{
    let u = chars_of(url);
    let gz = chars_of(".gz");
    let compressed = u.len() >= gz.len() && matches_at(&u, &gz, u.len() - gz.len());
    text_of_body(compressed, body)
}

/// What an index answered, as plain values: its body, or why there is
/// none.
pub type ResponseView = Result<Seq<u8>, Seq<char>>;

/// The view of an answer.
pub open spec fn response_view(r: Result<Vec<u8>, String>) -> ResponseView {
    match r {
        Ok(b) => Ok(b@),
        Err(c) => Err(c@),
    }
}

/// The paragraphs of an answer, or why it has none.
pub open spec fn answer_paragraphs(compressed: bool, response: ResponseView) -> Result<
    Seq<Seq<FieldView>>,
    Seq<char>,
> {
    match response {
        Err(c) => Err(c),
        Ok(body) => match body_text(compressed, body) {
            Err(c) => Err(c),
            Ok(text) => match deb822_paragraphs(text) {
                Some(ps) => Ok(ps),
                None => Err("not control text"@),
            },
        },
    }
}

/// Something that a session passed over.
#[derive(Debug, Clone)]
pub enum AptWarning {
    /// Neither variant of the index with this position could be used;
    /// `causes` holds why, the compressed variant first.
    TargetSkipped { target: usize, causes: Vec<String> },
    /// A paragraph of the index with this position was refused.
    ParagraphSkipped { target: usize, reason: ControlError },
}

/// Something that a session passed over, as plain values.
pub enum WarningView {
    TargetSkipped { target: int, causes: Seq<Seq<char>> },
    ParagraphSkipped { target: int, reason: ControlError },
}

impl View for AptWarning {
    type V = WarningView;

    open spec fn view(&self) -> WarningView {
        match self {
            AptWarning::TargetSkipped { target, causes } => WarningView::TargetSkipped {
                target: *target as int,
                causes: str_views(causes@),
            },
            AptWarning::ParagraphSkipped { target, reason } => WarningView::ParagraphSkipped {
                target: *target as int,
                reason: *reason,
            },
        }
    }
}

/// The views of a sequence of warnings.
pub open spec fn warnings_view(v: Seq<AptWarning>) -> Seq<WarningView> {
    v.map_values(|w: AptWarning| w@)
}

/// What a session has gathered: packages and warnings.
pub struct Harvest {
    pub packages: Seq<PackageView>,
    pub warnings: Seq<WarningView>,
}

/// One paragraph of the index at position `at` joins the harvest: as a
/// package where it describes one, as a warning where it is refused.
pub open spec fn absorb(h: Harvest, fields: Seq<FieldView>, t: TargetView, at: int) -> Harvest {
    match package_of(fields, t.suite, t.component, t.architecture) {
        Ok(p) => Harvest { packages: h.packages.push(p), warnings: h.warnings },
        Err(e) => Harvest {
            packages: h.packages,
            warnings: h.warnings.push(WarningView::ParagraphSkipped { target: at, reason: e }),
        },
    }
}

/// The harvest after the paragraphs of an index have joined it, in order.
pub open spec fn harvest(h: Harvest, ps: Seq<Seq<FieldView>>, t: TargetView, at: int) -> Harvest {
    ps.fold_left(h, |acc: Harvest, fields: Seq<FieldView>| absorb(acc, fields, t, at))
}

/// A session over the indices of one mirror.
///
/// For each index the compressed variant is asked for first and the
/// uncompressed one only if the first could not be used. An index of which
/// neither variant could be used is skipped.
pub struct AptSession {
    uris: String,
    targets: Vec<Target>,
    index: usize,
    plain: bool,
    served: usize,
    causes: Vec<String>,
    packages: Vec<Package>,
    warnings: Vec<AptWarning>,
}

/// The state of a session, as plain values.
pub struct SessionView {
    pub uris: Seq<char>,
    pub targets: Seq<TargetView>,
    /// Position of the index that is asked for next.
    pub index: int,
    /// Whether the compressed variant of that index has failed already.
    pub plain: bool,
    /// How many indices could be used.
    pub served: int,
    /// Why the variants of the current index failed so far.
    pub causes: Seq<Seq<char>>,
    pub packages: Seq<PackageView>,
    pub warnings: Seq<WarningView>,
}

/// The session that has asked for nothing yet.
pub open spec fn begin(info: AptInfoView) -> SessionView {
    SessionView {
        uris: info.uris,
        targets: targets_of(info),
        index: 0,
        plain: false,
        served: 0,
        causes: Seq::empty(),
        packages: Seq::empty(),
        warnings: Seq::empty(),
    }
}

/// Whether every index has been dealt with.
pub open spec fn finished(s: SessionView) -> bool {
    s.index >= s.targets.len()
}

/// The location to ask for next, if any is left.
pub open spec fn pending(s: SessionView) -> Option<Seq<char>> {
    if finished(s) {
        None
    } else {
        Some(index_url(s.uris, s.targets[s.index], !s.plain))
    }
}

/// The session after the answer to the pending request.
pub open spec fn step(s: SessionView, response: ResponseView) -> SessionView {
    if finished(s) {
        s
    } else {
        match answer_paragraphs(!s.plain, response) {
            Ok(ps) => {
                let h = harvest(
                    Harvest { packages: s.packages, warnings: s.warnings },
                    ps,
                    s.targets[s.index],
                    s.index,
                );
                SessionView {
                    index: s.index + 1,
                    plain: false,
                    served: s.served + 1,
                    causes: Seq::empty(),
                    packages: h.packages,
                    warnings: h.warnings,
                    ..s
                }
            },
            Err(c) => if !s.plain {
                SessionView { plain: true, causes: s.causes.push(c), ..s }
            } else {
                SessionView {
                    index: s.index + 1,
                    plain: false,
                    causes: Seq::empty(),
                    warnings: s.warnings.push(
                        WarningView::TargetSkipped { target: s.index, causes: s.causes.push(c) },
                    ),
                    ..s
                }
            },
        }
    }
}

/// Whether the fetch as a whole has failed: there were indices to fetch and
/// none of them could be used.
pub open spec fn has_failed(s: SessionView) -> bool {
    s.targets.len() > 0 && s.served == 0
}

/// The error of a fetch that has failed as a whole.
pub open spec fn all_failed() -> ErrorView {
    ErrorView {
        kind: ErrorKind::SourceUnavailable,
        message: "no index of the mirror could be fetched"@,
        causes: Seq::empty(),
    }
}

impl AptInfo {
    /// Begins the fetch of the package indices of the mirror: a session
    /// that has asked for nothing yet.
    pub fn get_packages(&self) -> (s: AptSession)
        ensures
            s@ == begin(self@),
    {
        AptSession::start(self)
    }
}

impl View for AptSession {
    type V = SessionView;

    closed spec fn view(&self) -> SessionView {
        SessionView {
            uris: self.uris@,
            targets: targets_view(self.targets@),
            index: self.index as int,
            plain: self.plain,
            served: self.served as int,
            causes: str_views(self.causes@),
            packages: packages_view(self.packages@),
            warnings: warnings_view(self.warnings@),
        }
    }
}

/// Adds the paragraphs of the index at position `at` to what a session has
/// gathered: each joins the packages where it describes one, and the
/// warnings where it is refused.
pub fn harvest_paragraphs(
    packages: Vec<Package>,
    warnings: Vec<AptWarning>,
    ps: &Vec<Paragraph>,
    target: &Target,
    at: usize,
) -> (r: (Vec<Package>, Vec<AptWarning>))
    ensures
        (Harvest { packages: packages_view(r.0@), warnings: warnings_view(r.1@) }) == harvest(
            Harvest { packages: packages_view(packages@), warnings: warnings_view(warnings@) },
            paragraphs_view(ps@),
            target@,
            at as int,
        ),
{
    let ghost t = target@;
    let ghost all = paragraphs_view(ps@);
    let ghost join = |acc: Harvest, fields: Seq<FieldView>| absorb(acc, fields, t, at as int);
    let ghost h0 = Harvest {
        packages: packages_view(packages@),
        warnings: warnings_view(warnings@),
    };
    let mut packages = packages;
    let mut warnings = warnings;
    let mut i: usize = 0;
    assert(all.take(0) =~= Seq::<Seq<FieldView>>::empty());
    while i < ps.len()
        invariant
            i <= ps.len(),
            all == paragraphs_view(ps@),
            t == target@,
            join == |acc: Harvest, fields: Seq<FieldView>| absorb(acc, fields, t, at as int),
            all.take(i as int).fold_left(h0, join) == (Harvest {
                packages: packages_view(packages@),
                warnings: warnings_view(warnings@),
            }),
        decreases ps.len() - i,
    {
        proof {
            let pre = all.take(i + 1);
            assert(pre.drop_last() == all.take(i as int));
            assert(pre.last() == ps@[i as int]@);
        }
        match Package::try_from_deb822_paragraph(
            &ps[i],
            target.suite.clone(),
            target.component.clone(),
            target.architecture.clone(),
        ) {
            Ok(p) => {
                assert(packages_view(packages@.push(p)) =~= packages_view(packages@).push(p@));
                packages.push(p);
            },
            Err(e) => {
                let w = AptWarning::ParagraphSkipped { target: at, reason: e };
                assert(warnings_view(warnings@.push(w)) =~= warnings_view(warnings@).push(w@));
                warnings.push(w);
            },
        }
        i = i + 1;
    }
    assert(all.take(ps.len() as int) == all);
    (packages, warnings)
}

fn answer_of(compressed: bool, response: Result<Vec<u8>, String>) -> (r: Result<
    Vec<Paragraph>,
    String,
>)
    ensures
        match r {
            Ok(ps) => answer_paragraphs(compressed, response_view(response)) == Ok::<
                Seq<Seq<FieldView>>,
                Seq<char>,
            >(paragraphs_view(ps@)),
            Err(c) => answer_paragraphs(compressed, response_view(response)) == Err::<
                Seq<Seq<FieldView>>,
                Seq<char>,
            >(c@),
        },
{
    match response {
        Err(c) => Err(c),
        Ok(body) => match text_of_body(compressed, &body) {
            Err(c) => Err(c),
            Ok(text) => match deb822_read(text.as_str()) {
                Some(ps) => Ok(ps),
                None => Err(string_of(&chars_of("not control text"))),
            },
        },
    }
}

/// A session is in order where its position lies within its indices and
/// no more indices were used than were dealt with.
pub open spec fn in_order(s: SessionView) -> bool {
    0 <= s.served <= s.index <= s.targets.len()
}

impl AptSession {
    #[verifier::type_invariant]
    spec fn inv(self) -> bool {
        &&& self.index <= self.targets.len()
        &&& self.served <= self.index
    }

    /// A session over the indices of `info` that has asked for nothing
    /// yet.
    pub fn start(info: &AptInfo) -> (s: AptSession)
        ensures
            s@ == begin(info@),
    {
        let s = AptSession {
            uris: info.uris.clone(),
            targets: targets(info),
            index: 0,
            plain: false,
            served: 0,
            causes: Vec::new(),
            packages: Vec::new(),
            warnings: Vec::new(),
        };
        proof {
            assert(str_views(s.causes@) =~= Seq::<Seq<char>>::empty());
            assert(packages_view(s.packages@) =~= Seq::<PackageView>::empty());
            assert(warnings_view(s.warnings@) =~= Seq::<WarningView>::empty());
        }
        s
    }

    /// The location to ask for next, or nothing once every index has been
    /// dealt with.
    pub fn pending(&self) -> (r: Option<String>)
        ensures
            in_order(self@),
            match r {
                Some(url) => pending(self@) == Some(url@),
                None => pending(self@) is None,
            },
    {
        proof {
            use_type_invariant(self);
            assert(self@.targets.len() == self.targets.len());
        }
        if self.index >= self.targets.len() {
            None
        } else {
            Some(candidate(self.uris.as_str(), &self.targets[self.index], !self.plain))
        }
    }

    /// The session after the answer to the pending request.
    pub fn advance(self, response: Result<Vec<u8>, String>) -> (r: AptSession)
        ensures
            r@ == step(self@, response_view(response)),
    {
        proof {
            use_type_invariant(&self);
            assert(self@.targets.len() == self.targets.len());
        }
        if self.index >= self.targets.len() {
            return self;
        }
        let AptSession { uris, targets, index, plain, served, causes, packages, warnings } = self;
        let mut causes = causes;
        let mut warnings = warnings;
        let at = index;
        match answer_of(!plain, response) {
            Ok(ps) => {
                let (packages, warnings) = harvest_paragraphs(
                    packages,
                    warnings,
                    &ps,
                    &targets[at],
                    at,
                );
                let fresh: Vec<String> = Vec::new();
                assert(str_views(fresh@) =~= Seq::<Seq<char>>::empty());
                AptSession {
                    uris,
                    targets,
                    index: at + 1,
                    plain: false,
                    served: served + 1,
                    causes: fresh,
                    packages,
                    warnings,
                }
            },
            Err(c) => {
                assert(str_views(causes@.push(c)) =~= str_views(causes@).push(c@));
                causes.push(c);
                if !plain {
                    AptSession {
                        uris,
                        targets,
                        index,
                        plain: true,
                        served,
                        causes,
                        packages,
                        warnings,
                    }
                } else {
                    let w = AptWarning::TargetSkipped { target: at, causes };
                    assert(warnings_view(warnings@.push(w)) =~= warnings_view(warnings@).push(
                        w@,
                    ));
                    warnings.push(w);
                    let fresh: Vec<String> = Vec::new();
                    assert(str_views(fresh@) =~= Seq::<Seq<char>>::empty());
                    AptSession {
                        uris,
                        targets,
                        index: at + 1,
                        plain: false,
                        served,
                        causes: fresh,
                        packages,
                        warnings,
                    }
                }
            },
        }
    }

    /// Ends the session and hands out what it gathered. The fetch has
    /// failed as a whole only where there were indices to fetch and none
    /// could be used; the warnings come out either way.
    pub fn finish(self) -> (r: (Result<Vec<Package>, Error>, Vec<AptWarning>))
        ensures
            in_order(self@),
            warnings_view(r.1@) == self@.warnings,
            match r.0 {
                Ok(ps) => !has_failed(self@) && packages_view(ps@) == self@.packages,
                Err(e) => has_failed(self@) && e@ == all_failed(),
            },
    {
        proof {
            use_type_invariant(&self);
        }
        assert(self@.targets.len() == self.targets.len());
        assert(self@.served == self.served);
        if self.targets.len() > 0 && self.served == 0 {
            let e = Error::new(
                ErrorKind::SourceUnavailable,
                string_of(&chars_of("no index of the mirror could be fetched")),
                Vec::new(),
            );
            assert(e@.causes =~= Seq::<Seq<char>>::empty());
            (Err(e), self.warnings)
        } else {
            (Ok(self.packages), self.warnings)
        }
    }
}

/// Fallback to the uncompressed index: where the compressed variant of the
/// current index fails and the uncompressed one is served with a body that
/// can be read, the session asks for the uncompressed variant next, and
/// then gathers the packages of that body and counts the index as used, so
/// that the fetch as a whole has not failed.
pub proof fn lemma_fallback_is_used(s: SessionView, cause: Seq<char>, body: Seq<u8>)
    requires
        in_order(s),
        !finished(s),
        !s.plain,
        answer_paragraphs(false, Ok(body)) is Ok,
    ensures
        pending(step(s, Err(cause))) == Some(index_url(s.uris, s.targets[s.index], false)),
        in_order(step(step(s, Err(cause)), Ok(body))),
        step(step(s, Err(cause)), Ok(body)).index == s.index + 1,
        step(step(s, Err(cause)), Ok(body)).served == s.served + 1,
        !has_failed(step(step(s, Err(cause)), Ok(body))),
        step(step(s, Err(cause)), Ok(body)).packages == harvest(
            Harvest { packages: s.packages, warnings: s.warnings },
            answer_paragraphs(false, Ok(body))->Ok_0,
            s.targets[s.index],
            s.index,
        ).packages,
{
}

/// The session after every request has been answered by `serve`, which
/// tells for each location what the mirror answers.
pub open spec fn run(s: SessionView, serve: spec_fn(Seq<char>) -> ResponseView) -> SessionView
    decreases s.targets.len() - s.index, (if s.plain {
        0int
    } else {
        1int
    }),
{
    if finished(s) {
        s
    } else {
        run(step(s, serve(pending(s)->Some_0)), serve)
    }
}

/// The packages that the paragraphs of an index describe, in order; a
/// paragraph that is refused describes none.
pub open spec fn accepted(ps: Seq<Seq<FieldView>>, t: TargetView) -> Seq<PackageView>
    decreases ps.len(),
{
    if ps.len() == 0 {
        Seq::empty()
    } else {
        match package_of(ps.last(), t.suite, t.component, t.architecture) {
            Ok(p) => accepted(ps.drop_last(), t).push(p),
            Err(_) => accepted(ps.drop_last(), t),
        }
    }
}

/// The paragraphs of the variant of an index that a session uses: those of
/// the compressed variant where it can be used, else those of the
/// uncompressed one, else none.
pub open spec fn usable(uris: Seq<char>, t: TargetView, serve: spec_fn(Seq<char>) -> ResponseView) -> Option<
    Seq<Seq<FieldView>>,
> {
    match answer_paragraphs(true, serve(index_url(uris, t, true))) {
        Ok(ps) => Some(ps),
        Err(_) => match answer_paragraphs(false, serve(index_url(uris, t, false))) {
            Ok(ps) => Some(ps),
            Err(_) => None,
        },
    }
}

/// The packages of the indices from position `from` on, in order.
pub open spec fn packages_from(
    uris: Seq<char>,
    targets: Seq<TargetView>,
    serve: spec_fn(Seq<char>) -> ResponseView,
    from: int,
) -> Seq<PackageView>
    decreases targets.len() - from,
{
    if from < 0 || from >= targets.len() {
        Seq::empty()
    } else {
        (match usable(uris, targets[from], serve) {
            Some(ps) => accepted(ps, targets[from]),
            None => Seq::empty(),
        }) + packages_from(uris, targets, serve, from + 1)
    }
}

/// How many of the indices from position `from` on can be used.
pub open spec fn usable_from(
    uris: Seq<char>,
    targets: Seq<TargetView>,
    serve: spec_fn(Seq<char>) -> ResponseView,
    from: int,
) -> int
    decreases targets.len() - from,
{
    if from < 0 || from >= targets.len() {
        0
    } else {
        (if usable(uris, targets[from], serve) is Some {
            1int
        } else {
            0int
        }) + usable_from(uris, targets, serve, from + 1)
    }
}

/// The packages of a harvest are those that it began with, followed by the
/// packages that the paragraphs describe.
pub proof fn lemma_harvest_packages(h: Harvest, ps: Seq<Seq<FieldView>>, t: TargetView, at: int)
    ensures
        harvest(h, ps, t, at).packages == h.packages + accepted(ps, t),
    decreases ps.len(),
{
    if ps.len() == 0 {
        assert(h.packages + accepted(ps, t) =~= h.packages);
    } else {
        lemma_harvest_packages(h, ps.drop_last(), t, at);
        let before = harvest(h, ps.drop_last(), t, at);
        assert(harvest(h, ps, t, at) == absorb(before, ps.last(), t, at));
        match package_of(ps.last(), t.suite, t.component, t.architecture) {
            Ok(p) => {
                assert((h.packages + accepted(ps.drop_last(), t)).push(p) =~= h.packages
                    + accepted(ps, t));
            },
            Err(_) => {},
        }
    }
}

/// What a whole fetch comes to. Whatever the mirror answers, a session that
/// stands before an index ends with every index dealt with; it has then
/// gathered, besides what it held, the packages of each remaining index
/// that has a usable variant, in order, and has counted those indices.
pub proof fn lemma_run(s: SessionView, serve: spec_fn(Seq<char>) -> ResponseView)
    requires
        in_order(s),
        !s.plain,
    ensures
        finished(run(s, serve)),
        in_order(run(s, serve)),
        run(s, serve).targets == s.targets,
        run(s, serve).packages == s.packages + packages_from(s.uris, s.targets, serve, s.index),
        run(s, serve).served == s.served + usable_from(s.uris, s.targets, serve, s.index),
    decreases s.targets.len() - s.index,
{
    if finished(s) {
        assert(s.packages + packages_from(s.uris, s.targets, serve, s.index) =~= s.packages);
    } else {
        let t = s.targets[s.index];
        let h = Harvest { packages: s.packages, warnings: s.warnings };
        let rest = packages_from(s.uris, s.targets, serve, s.index + 1);
        let first = serve(index_url(s.uris, t, true));
        let s1 = step(s, first);
        assert(run(s, serve) == run(s1, serve));
        match answer_paragraphs(true, first) {
            Ok(ps) => {
                lemma_harvest_packages(h, ps, t, s.index);
                lemma_run(s1, serve);
                assert((s.packages + accepted(ps, t)) + rest =~= s.packages + (accepted(ps, t)
                    + rest));
            },
            Err(_) => {
                let second = serve(index_url(s.uris, t, false));
                let s2 = step(s1, second);
                assert(pending(s1) == Some(index_url(s.uris, t, false)));
                assert(run(s1, serve) == run(s2, serve));
                lemma_run(s2, serve);
                match answer_paragraphs(false, second) {
                    Ok(ps) => {
                        lemma_harvest_packages(
                            Harvest { packages: s1.packages, warnings: s1.warnings },
                            ps,
                            t,
                            s.index,
                        );
                        assert((s.packages + accepted(ps, t)) + rest =~= s.packages + (accepted(
                            ps,
                            t,
                        ) + rest));
                    },
                    Err(_) => {
                        assert(s.packages + rest =~= s.packages + (Seq::<PackageView>::empty()
                            + rest));
                    },
                }
            },
        }
    }
}

/// The fetch of a mirror: it fails as a whole exactly where there are
/// indices and none of them has a usable variant; else it gives the packages
/// of every index that has one, in the order of the indices.
pub proof fn lemma_fetch(info: AptInfoView, serve: spec_fn(Seq<char>) -> ResponseView)
    ensures
        finished(run(begin(info), serve)),
        has_failed(run(begin(info), serve)) <==> targets_of(info).len() > 0 && usable_from(
            info.uris,
            targets_of(info),
            serve,
            0,
        ) == 0,
        run(begin(info), serve).packages == packages_from(
            info.uris,
            targets_of(info),
            serve,
            0,
        ),
{
    let s = begin(info);
    lemma_run(s, serve);
    assert(s.packages + packages_from(info.uris, targets_of(info), serve, 0) =~= packages_from(
        info.uris,
        targets_of(info),
        serve,
        0,
    ));
}

/// A mirror with a single index of which only the uncompressed variant can
/// be served: the fetch ends without failure and with the packages that the
/// paragraphs of the uncompressed body describe.
pub proof fn lemma_only_uncompressed_servable(
    info: AptInfoView,
    serve: spec_fn(Seq<char>) -> ResponseView,
)
    requires
        targets_of(info).len() == 1,
        serve(index_url(info.uris, targets_of(info)[0], true)) is Err,
        answer_paragraphs(false, serve(index_url(info.uris, targets_of(info)[0], false))) is Ok,
    ensures
        finished(run(begin(info), serve)),
        !has_failed(run(begin(info), serve)),
        run(begin(info), serve).packages == accepted(
            answer_paragraphs(
                false,
                serve(index_url(info.uris, targets_of(info)[0], false)),
            )->Ok_0,
            targets_of(info)[0],
        ),
{
    let targets = targets_of(info);
    let ps = answer_paragraphs(false, serve(index_url(info.uris, targets[0], false)))->Ok_0;
    lemma_fetch(info, serve);
    assert(usable(info.uris, targets[0], serve) == Some(ps));
    assert(packages_from(info.uris, targets, serve, 1) =~= Seq::<PackageView>::empty());
    assert(usable_from(info.uris, targets, serve, 1) == 0);
    assert(packages_from(info.uris, targets, serve, 0) =~= accepted(ps, targets[0]));
}

/// Where every paragraph of an index describes a package, every paragraph
/// has its package: there are as many packages as paragraphs, in order, and
/// each holds the `Package`, `Version` and `Maintainer` of its paragraph and
/// the suite, component and architecture of the index.
pub proof fn lemma_accepted_all(ps: Seq<Seq<FieldView>>, t: TargetView)
    requires
        forall|i: int|
            0 <= i < ps.len() ==> crate::package::missing_of(#[trigger] ps[i]) is None
                && crate::record::relations_of(ps[i]) is Ok,
    ensures
        accepted(ps, t).len() == ps.len(),
        forall|i: int|
            0 <= i < ps.len() ==> (#[trigger] accepted(ps, t)[i]) == package_of(
                ps[i],
                t.suite,
                t.component,
                t.architecture,
            )->Ok_0,
        forall|i: int|
            0 <= i < ps.len() ==> {
                let p = #[trigger] accepted(ps, t)[i];
                &&& p.package == lookup(ps[i], "Package"@)->Some_0
                &&& p.version == lookup(ps[i], "Version"@)->Some_0
                &&& p.maintainer == lookup(ps[i], "Maintainer"@)->Some_0
                &&& p.suite == t.suite
                &&& p.component == t.component
                &&& p.architecture == t.architecture
            },
    decreases ps.len(),
{
    if ps.len() > 0 {
        let init = ps.drop_last();
        assert forall|i: int| 0 <= i < init.len() implies crate::package::missing_of(
            #[trigger] init[i],
        ) is None && crate::record::relations_of(init[i]) is Ok by {
            assert(init[i] == ps[i]);
        }
        lemma_accepted_all(init, t);
        assert(crate::package::missing_of(ps[ps.len() - 1]) is None);
        assert(package_of(ps.last(), t.suite, t.component, t.architecture) is Ok);
        assert forall|i: int| 0 <= i < ps.len() implies (#[trigger] accepted(ps, t)[i])
            == package_of(ps[i], t.suite, t.component, t.architecture)->Ok_0 by {
            if i < init.len() {
                assert(accepted(ps, t)[i] == accepted(init, t)[i]);
                assert(init[i] == ps[i]);
            }
        }
    }
}

/// A mirror with a single index of which only the uncompressed variant can
/// be served, every paragraph of which describes a package: the fetch gives
/// one package for each paragraph, in order, with the fields of the
/// paragraph and the suite, component and architecture of the index.
pub proof fn lemma_fallback_gives_every_package(
    info: AptInfoView,
    serve: spec_fn(Seq<char>) -> ResponseView,
)
    requires
        targets_of(info).len() == 1,
        serve(index_url(info.uris, targets_of(info)[0], true)) is Err,
        answer_paragraphs(false, serve(index_url(info.uris, targets_of(info)[0], false))) is Ok,
        forall|i: int|
            0 <= i < answer_paragraphs(
                false,
                serve(index_url(info.uris, targets_of(info)[0], false)),
            )->Ok_0.len() ==> crate::package::missing_of(
                #[trigger] answer_paragraphs(
                    false,
                    serve(index_url(info.uris, targets_of(info)[0], false)),
                )->Ok_0[i],
            ) is None && crate::record::relations_of(
                answer_paragraphs(
                    false,
                    serve(index_url(info.uris, targets_of(info)[0], false)),
                )->Ok_0[i],
            ) is Ok,
    ensures
        !has_failed(run(begin(info), serve)),
        run(begin(info), serve).packages.len() == answer_paragraphs(
            false,
            serve(index_url(info.uris, targets_of(info)[0], false)),
        )->Ok_0.len(),
        forall|i: int|
            0 <= i < run(begin(info), serve).packages.len() ==> {
                let p = #[trigger] run(begin(info), serve).packages[i];
                let fields = answer_paragraphs(
                    false,
                    serve(index_url(info.uris, targets_of(info)[0], false)),
                )->Ok_0[i];
                &&& p.package == lookup(fields, "Package"@)->Some_0
                &&& p.version == lookup(fields, "Version"@)->Some_0
                &&& p.suite == targets_of(info)[0].suite
                &&& p.component == targets_of(info)[0].component
                &&& p.architecture == targets_of(info)[0].architecture
            },
{
    let t = targets_of(info)[0];
    let ps = answer_paragraphs(false, serve(index_url(info.uris, t, false)))->Ok_0;
    lemma_only_uncompressed_servable(info, serve);
    lemma_accepted_all(ps, t);
    assert forall|i: int| 0 <= i < run(begin(info), serve).packages.len() implies {
        let p = #[trigger] run(begin(info), serve).packages[i];
        &&& p.package == lookup(ps[i], "Package"@)->Some_0
        &&& p.version == lookup(ps[i], "Version"@)->Some_0
        &&& p.suite == t.suite
        &&& p.component == t.component
        &&& p.architecture == t.architecture
    } by {
        assert(run(begin(info), serve).packages[i] == accepted(ps, t)[i]);
    }
}

/// What the paragraphs of a flat index gave: the entries that could be
/// built and, for each paragraph that was refused, why.
pub struct Gathered {
    pub entries: Seq<MetaView>,
    pub skipped: Seq<ControlError>,
}

/// The entry that a paragraph of the flat index at `base` describes, as of
/// `now`. Its package file lies in the archive that the index belongs to,
/// at the path that the first `Filename` field names or, without such a
/// field, at the conventional pool path.
pub open spec fn entry_of(fields: Seq<FieldView>, base: UrlView, now: Timestamp) -> Result<
    MetaView,
    ControlError,
> {
    match record_of(fields) {
        Ok(r) => Ok(
            MetaView {
                last_modified: now,
                info: r,
                url: in_archive(
                    base,
                    download_path(first_lookup(fields, "Filename"@), r.identity.name),
                ),
            },
        ),
        Err(e) => Err(e),
    }
}

/// One paragraph joins what was gathered: as an entry where it describes a
/// package, as a skipped paragraph where it is refused.
pub open spec fn gather(g: Gathered, fields: Seq<FieldView>, base: UrlView, now: Timestamp) -> Gathered {
    match entry_of(fields, base, now) {
        Ok(m) => Gathered { entries: g.entries.push(m), skipped: g.skipped },
        Err(e) => Gathered { entries: g.entries, skipped: g.skipped.push(e) },
    }
}

/// What the paragraphs `ps` give, in order.
pub open spec fn gathered(ps: Seq<Seq<FieldView>>, base: UrlView, now: Timestamp) -> Gathered {
    ps.fold_left(
        Gathered { entries: Seq::empty(), skipped: Seq::empty() },
        |g: Gathered, fields: Seq<FieldView>| gather(g, fields, base, now),
    )
}

/// The author under which the catalog of an archive mirror is published.
pub open spec fn archive_author() -> MaintainerView {
    MaintainerView { name: "Debian Repository"@, email: "debian@debian.org"@ }
}

/// The catalog that the body of a flat index at `base` holds; the body is
/// decompressed first where it is the compressed variant.
pub open spec fn assembled(base: UrlView, compressed: bool, body: Seq<u8>, now: Timestamp) -> Result<
    RepoView,
    ErrorView,
> {
    match body_text(compressed, body) {
        Err(c) => Err(
            ErrorView { kind: ErrorKind::MalformedInput, message: c, causes: Seq::empty() },
        ),
        Ok(text) => Ok(
            RepoView {
                author: archive_author(),
                last_modified: now,
                packages: gathered(parse_text(text), base, now).entries,
            },
        ),
    }
}

/// The paragraphs of the body that were refused, each with its reason.
pub open spec fn refused(base: UrlView, compressed: bool, body: Seq<u8>, now: Timestamp) -> Seq<
    ControlError,
> {
    match body_text(compressed, body) {
        Err(_) => Seq::empty(),
        Ok(text) => gathered(parse_text(text), base, now).skipped,
    }
}

/// The location of the flat index of the archive at `base`: `Packages.gz`
/// beside it for the compressed variant, `Packages` for the other.
pub open spec fn flat_url(base: UrlView, compressed: bool) -> Seq<char> {
    resolved(
        base,
        if compressed {
            "Packages.gz"@
        } else {
            "Packages"@
        },
    )
}

/// The location of the compressed flat index of the archive at `url`.
pub fn packages_url(url: &URL) -> (r: String)
    ensures
        r@ == flat_url(url@, true),
{
    crate::repo::resolve(url, "Packages.gz")
}

/// The entries that the text of a flat index at `url` holds, dated `now`,
/// and why each paragraph that gives none was refused.
pub fn entries_of(url: &URL, text: &str, now: Timestamp) -> (r: (
    Vec<PackageMetaData>,
    Vec<ControlError>,
))
    ensures
        metas_view(r.0@) == gathered(parse_text(text@), url@, now).entries,
        r.1@ == gathered(parse_text(text@), url@, now).skipped,
{
    let ps = parse_paragraphs(text);
    let ghost all = paragraphs_view(ps@);
    let ghost base = url@;
    let ghost join = |g: Gathered, fields: Seq<FieldView>| gather(g, fields, base, now);
    let ghost g0 = Gathered { entries: Seq::empty(), skipped: Seq::empty() };
    let mut entries: Vec<PackageMetaData> = Vec::new();
    let mut skipped: Vec<ControlError> = Vec::new();
    let mut i: usize = 0;
    proof {
        assert(all.take(0) =~= Seq::<Seq<FieldView>>::empty());
        assert(metas_view(entries@) =~= Seq::<MetaView>::empty());
        assert(skipped@ =~= Seq::<ControlError>::empty());
    }
    while i < ps.len()
        invariant
            i <= ps.len(),
            all == paragraphs_view(ps@),
            base == url@,
            join == |g: Gathered, fields: Seq<FieldView>| gather(g, fields, base, now),
            g0 == (Gathered { entries: Seq::empty(), skipped: Seq::empty() }),
            all.take(i as int).fold_left(g0, join) == (Gathered {
                entries: metas_view(entries@),
                skipped: skipped@,
            }),
        decreases ps.len() - i,
    {
        let p = &ps[i];
        proof {
            let pre = all.take(i + 1);
            assert(pre.drop_last() == all.take(i as int));
            assert(pre.last() == p@);
        }
        match to_package_data(p) {
            Ok(info) => {
                let link = archive_url(
                    url,
                    first_value(&p.fields, "Filename"),
                    info.identity.name.as_str(),
                );
                let m = PackageMetaData { last_modified: now, info, url: link };
                assert(metas_view(entries@.push(m)) =~= metas_view(entries@).push(m@));
                entries.push(m);
            },
            Err(e) => {
                skipped.push(e);
            },
        }
        i = i + 1;
    }
    assert(all.take(ps.len() as int) == all);
    (entries, skipped)
}

/// Builds the catalog of the flat index at `url` from its body, which is
/// decompressed first where `compressed` says so. A paragraph that is
/// refused is skipped and reported in the second component; only a body
/// that cannot be read fails.
pub fn assemble(url: &URL, compressed: bool, body: &Vec<u8>, now: Timestamp) -> (r: Result<
    (RepoData, Vec<ControlError>),
    Error,
>)
    ensures
        match r {
            Ok(d) => assembled(url@, compressed, body@, now) == Ok::<RepoView, ErrorView>(d.0@)
                && d.1@ == refused(url@, compressed, body@, now),
            Err(e) => assembled(url@, compressed, body@, now) == Err::<RepoView, ErrorView>(e@),
        },
{
    let text = match text_of_body(compressed, body) {
        Ok(t) => t,
        Err(c) => {
            let e = Error::new(ErrorKind::MalformedInput, c, Vec::new());
            assert(e@.causes =~= Seq::<Seq<char>>::empty());
            return Err(e);
        },
    };
    let (entries, skipped) = entries_of(url, text.as_str(), now);
    Ok(
        (
            RepoData {
                author: Maintainer {
                    name: string_of(&chars_of("Debian Repository")),
                    email: string_of(&chars_of("debian@debian.org")),
                },
                last_modified: now,
                packages: entries,
            },
            skipped,
        ),
    )
}

/// The error that reports that a source did not answer.
pub open spec fn unavailable(cause: Seq<char>) -> ErrorView {
    ErrorView { kind: ErrorKind::SourceUnavailable, message: cause, causes: Seq::empty() }
}

/// How far the fetch of a flat index has come.
#[derive(Debug)]
pub enum FlatState {
    /// The compressed index is to be asked for.
    AskCompressed,
    /// The compressed index could not be used, for the given cause; the
    /// uncompressed one is to be asked for.
    AskPlain { cause: String },
    /// One of the two could be used.
    Served { catalog: RepoData, skipped: Vec<ControlError> },
    /// Neither could be used; `causes` holds why, the compressed index
    /// first.
    Failed { causes: Vec<String> },
}

/// How far the fetch of a flat index has come, as plain values.
pub enum FlatStateView {
    AskCompressed,
    AskPlain { cause: Seq<char> },
    Served { catalog: RepoView, skipped: Seq<ControlError> },
    Failed { causes: Seq<Seq<char>> },
}

impl View for FlatState {
    type V = FlatStateView;

    open spec fn view(&self) -> FlatStateView {
        match self {
            FlatState::AskCompressed => FlatStateView::AskCompressed,
            FlatState::AskPlain { cause } => FlatStateView::AskPlain { cause: cause@ },
            FlatState::Served { catalog, skipped } => FlatStateView::Served {
                catalog: catalog@,
                skipped: skipped@,
            },
            FlatState::Failed { causes } => FlatStateView::Failed { causes: str_views(causes@) },
        }
    }
}

/// The fetch of the flat index of one archive.
///
/// The compressed index is asked for first and the uncompressed one only
/// if the first could not be used. The fetch fails only where neither could
/// be used.
pub struct FlatSession {
    url: URL,
    now: Timestamp,
    state: FlatState,
}

/// The fetch of a flat index, as plain values.
pub struct FlatView {
    /// The location of the archive.
    pub base: UrlView,
    /// The moment with which the catalog is dated.
    pub now: Timestamp,
    pub state: FlatStateView,
}

impl View for FlatSession {
    type V = FlatView;

    closed spec fn view(&self) -> FlatView {
        FlatView { base: self.url@, now: self.now, state: self.state@ }
    }
}

/// The fetch that has asked for nothing yet.
pub open spec fn flat_begin(base: UrlView, now: Timestamp) -> FlatView {
    FlatView { base, now, state: FlatStateView::AskCompressed }
}

/// The location to ask for next, if any is left.
pub open spec fn flat_pending(s: FlatView) -> Option<Seq<char>> {
    match s.state {
        FlatStateView::AskCompressed => Some(flat_url(s.base, true)),
        FlatStateView::AskPlain { .. } => Some(flat_url(s.base, false)),
        _ => None,
    }
}

/// What an answer gives: the catalog that its body holds and the reasons of
/// the paragraphs that were refused, or why it gives none.
pub open spec fn flat_answer(
    base: UrlView,
    compressed: bool,
    response: ResponseView,
    now: Timestamp,
) -> Result<(RepoView, Seq<ControlError>), Seq<char>> {
    match response {
        Err(c) => Err(c),
        Ok(body) => match assembled(base, compressed, body, now) {
            Ok(catalog) => Ok((catalog, refused(base, compressed, body, now))),
            Err(e) => Err(e.message),
        },
    }
}

/// The fetch after the answer to the pending request. An answer that can
/// be used ends the fetch; the first that cannot leads to the request for
/// the uncompressed index, the second to failure.
pub open spec fn flat_step(s: FlatView, response: ResponseView) -> FlatView {
    match s.state {
        FlatStateView::AskCompressed => match flat_answer(s.base, true, response, s.now) {
            Ok(got) => FlatView {
                state: FlatStateView::Served { catalog: got.0, skipped: got.1 },
                ..s
            },
            Err(c) => FlatView { state: FlatStateView::AskPlain { cause: c }, ..s },
        },
        FlatStateView::AskPlain { cause } => match flat_answer(s.base, false, response, s.now) {
            Ok(got) => FlatView {
                state: FlatStateView::Served { catalog: got.0, skipped: got.1 },
                ..s
            },
            Err(c) => FlatView { state: FlatStateView::Failed { causes: seq![cause, c] }, ..s },
        },
        _ => s,
    }
}

/// The error of a fetch that gave no catalog, with the causes known by
/// then.
pub open spec fn flat_failure(causes: Seq<Seq<char>>) -> ErrorView {
    ErrorView {
        kind: ErrorKind::SourceUnavailable,
        message: "the index of the archive could not be fetched"@,
        causes,
    }
}

/// What a fetch comes to: the catalog where an answer could be used, else
/// `SourceUnavailable` with the cause of every answer that could not.
pub open spec fn flat_outcome(s: FlatView) -> Result<RepoView, ErrorView> {
    match s.state {
        FlatStateView::Served { catalog, .. } => Ok(catalog),
        FlatStateView::Failed { causes } => Err(flat_failure(causes)),
        FlatStateView::AskPlain { cause } => Err(flat_failure(seq![cause])),
        FlatStateView::AskCompressed => Err(flat_failure(Seq::empty())),
    }
}

/// The reasons of the paragraphs that the fetch passed over.
pub open spec fn flat_skipped(s: FlatView) -> Seq<ControlError> {
    match s.state {
        FlatStateView::Served { skipped, .. } => skipped,
        _ => Seq::empty(),
    }
}

fn flat_answer_of(url: &URL, compressed: bool, response: Result<Vec<u8>, String>, now: Timestamp) -> (r:
    Result<(RepoData, Vec<ControlError>), String>)
    ensures
        match r {
            Ok(d) => flat_answer(url@, compressed, response_view(response), now) == Ok::<
                (RepoView, Seq<ControlError>),
                Seq<char>,
            >((d.0@, d.1@)),
            Err(c) => flat_answer(url@, compressed, response_view(response), now) == Err::<
                (RepoView, Seq<ControlError>),
                Seq<char>,
            >(c@),
        },
{
    match response {
        Err(c) => Err(c),
        Ok(body) => match assemble(url, compressed, &body, now) {
            Ok(d) => Ok(d),
            Err(e) => Err(e.message),
        },
    }
}

impl FlatSession {
    /// The fetch of the flat index of the archive at `url` that has asked
    /// for nothing yet; its catalog will be dated `now`.
    pub fn start(url: URL, now: Timestamp) -> (s: FlatSession)
        ensures
            s@ == flat_begin(url@, now),
    {
        FlatSession { url, now, state: FlatState::AskCompressed }
    }

    /// The location to ask for next, or nothing once the fetch has ended.
    pub fn pending(&self) -> (r: Option<String>)
        ensures
            match r {
                Some(url) => flat_pending(self@) == Some(url@),
                None => flat_pending(self@) is None,
            },
    {
        match &self.state {
            FlatState::AskCompressed => Some(crate::repo::resolve(&self.url, "Packages.gz")),
            FlatState::AskPlain { .. } => Some(crate::repo::resolve(&self.url, "Packages")),
            _ => None,
        }
    }

    /// The fetch after the answer to the pending request.
    pub fn advance(self, response: Result<Vec<u8>, String>) -> (r: FlatSession)
        ensures
            r@ == flat_step(self@, response_view(response)),
    {
        let FlatSession { url, now, state } = self;
        match state {
            FlatState::AskCompressed => match flat_answer_of(&url, true, response, now) {
                Ok(d) => FlatSession {
                    url,
                    now,
                    state: FlatState::Served { catalog: d.0, skipped: d.1 },
                },
                Err(c) => FlatSession { url, now, state: FlatState::AskPlain { cause: c } },
            },
            FlatState::AskPlain { cause } => match flat_answer_of(&url, false, response, now) {
                Ok(d) => FlatSession {
                    url,
                    now,
                    state: FlatState::Served { catalog: d.0, skipped: d.1 },
                },
                Err(c) => {
                    let mut causes: Vec<String> = Vec::new();
                    causes.push(cause);
                    causes.push(c);
                    assert(str_views(causes@) =~= seq![cause@, c@]);
                    FlatSession { url, now, state: FlatState::Failed { causes } }
                },
            },
            other => FlatSession { url, now, state: other },
        }
    }

    /// Ends the fetch and hands out what it came to, with the reasons of
    /// the paragraphs that were passed over.
    pub fn finish(self) -> (r: (Result<RepoData, Error>, Vec<ControlError>))
        ensures
            r.1@ == flat_skipped(self@),
            match r.0 {
                Ok(d) => flat_outcome(self@) == Ok::<RepoView, ErrorView>(d@),
                Err(e) => flat_outcome(self@) == Err::<RepoView, ErrorView>(e@),
            },
    {
        let message = string_of(&chars_of("the index of the archive could not be fetched"));
        match self.state {
            FlatState::Served { catalog, skipped } => (Ok(catalog), skipped),
            FlatState::Failed { causes } => (
                Err(Error::new(ErrorKind::SourceUnavailable, message, causes)),
                Vec::new(),
            ),
            FlatState::AskPlain { cause } => {
                let mut causes: Vec<String> = Vec::new();
                causes.push(cause);
                assert(str_views(causes@) =~= seq![cause@]);
                (Err(Error::new(ErrorKind::SourceUnavailable, message, causes)), Vec::new())
            },
            FlatState::AskCompressed => {
                let e = Error::new(ErrorKind::SourceUnavailable, message, Vec::new());
                assert(e@.causes =~= Seq::<Seq<char>>::empty());
                (Err(e), Vec::new())
            },
        }
    }
}

/// Begins the fetch of the flat index of the archive at `url`; the catalog
/// will be dated `now`.
pub fn fetch(url: URL, now: Timestamp) -> (s: FlatSession)
    ensures
        s@ == flat_begin(url@, now),
{
    FlatSession::start(url, now)
}

/// The fetch after both requests, as far as they are made, have been
/// answered by `serve`, which tells for each location what the archive
/// answers.
pub open spec fn flat_run(base: UrlView, now: Timestamp, serve: spec_fn(Seq<char>) -> ResponseView) -> FlatView {
    let first = flat_step(flat_begin(base, now), serve(flat_url(base, true)));
    match flat_pending(first) {
        Some(url) => flat_step(first, serve(url)),
        None => first,
    }
}

/// Fallback of the flat index: where the compressed index cannot be used
/// and the uncompressed one can, the fetch gives the catalog that the
/// uncompressed body holds.
pub proof fn lemma_flat_fallback(
    base: UrlView,
    now: Timestamp,
    serve: spec_fn(Seq<char>) -> ResponseView,
)
    requires
        flat_answer(base, true, serve(flat_url(base, true)), now) is Err,
        flat_answer(base, false, serve(flat_url(base, false)), now) is Ok,
    ensures
        flat_pending(flat_run(base, now, serve)) is None,
        flat_outcome(flat_run(base, now, serve)) == Ok::<RepoView, ErrorView>(
            flat_answer(base, false, serve(flat_url(base, false)), now)->Ok_0.0,
        ),
{
}

/// The fetch of a flat index fails exactly where neither index can be
/// used, and then holds both causes, that of the compressed index first;
/// where the compressed index can be used the other is not asked for.
pub proof fn lemma_flat_fetch(
    base: UrlView,
    now: Timestamp,
    serve: spec_fn(Seq<char>) -> ResponseView,
)
    ensures
        flat_pending(flat_run(base, now, serve)) is None,
        flat_outcome(flat_run(base, now, serve)) is Err <==> flat_answer(
            base,
            true,
            serve(flat_url(base, true)),
            now,
        ) is Err && flat_answer(base, false, serve(flat_url(base, false)), now) is Err,
        flat_outcome(flat_run(base, now, serve)) is Err ==> flat_outcome(
            flat_run(base, now, serve),
        )->Err_0 == flat_failure(
            seq![
                flat_answer(base, true, serve(flat_url(base, true)), now)->Err_0,
                flat_answer(base, false, serve(flat_url(base, false)), now)->Err_0,
            ],
        ),
        flat_answer(base, true, serve(flat_url(base, true)), now) is Ok ==> flat_run(
            base,
            now,
            serve,
        ) == flat_step(flat_begin(base, now), serve(flat_url(base, true))),
{
}

/// Where every paragraph describes a package, every paragraph has its
/// entry: there are as many entries as paragraphs, in order, and nothing is
/// skipped.
pub proof fn lemma_gathered_all(ps: Seq<Seq<FieldView>>, base: UrlView, now: Timestamp)
    requires
        forall|i: int| 0 <= i < ps.len() ==> record_of(#[trigger] ps[i]) is Ok,
    ensures
        gathered(ps, base, now).skipped.len() == 0,
        gathered(ps, base, now).entries.len() == ps.len(),
        forall|i: int|
            0 <= i < ps.len() ==> (#[trigger] gathered(ps, base, now).entries[i]) == entry_of(
                ps[i],
                base,
                now,
            )->Ok_0,
        forall|i: int|
            0 <= i < ps.len() ==> (#[trigger] gathered(ps, base, now).entries[i]).info.identity.name
                == lookup(ps[i], "Package"@)->Some_0,
    decreases ps.len(),
{
    if ps.len() > 0 {
        let init = ps.drop_last();
        assert forall|i: int| 0 <= i < init.len() implies record_of(#[trigger] init[i]) is Ok by {
            assert(init[i] == ps[i]);
        }
        lemma_gathered_all(init, base, now);
        let before = gathered(init, base, now);
        assert(gathered(ps, base, now) == gather(before, ps.last(), base, now));
        assert(record_of(ps[ps.len() - 1]) is Ok);
        assert forall|i: int| 0 <= i < ps.len() implies (#[trigger] gathered(
            ps,
            base,
            now,
        ).entries[i]) == entry_of(ps[i], base, now)->Ok_0 by {
            if i < init.len() {
                assert(gathered(ps, base, now).entries[i] == before.entries[i]);
                assert(init[i] == ps[i]);
            }
        }
    }
}

/// A flat archive of which only the uncompressed index can be served, every
/// paragraph of which describes a package: the fetch gives a catalog with
/// one entry for each paragraph, in order, each named as its paragraph
/// names it.
pub proof fn lemma_flat_fallback_gives_every_entry(
    base: UrlView,
    now: Timestamp,
    serve: spec_fn(Seq<char>) -> ResponseView,
    body: Seq<u8>,
)
    requires
        serve(flat_url(base, true)) is Err,
        serve(flat_url(base, false)) == Ok::<Seq<u8>, Seq<char>>(body),
        body_text(false, body) is Ok,
        forall|i: int|
            0 <= i < parse_text(body_text(false, body)->Ok_0).len() ==> record_of(
                #[trigger] parse_text(body_text(false, body)->Ok_0)[i],
            ) is Ok,
    ensures
        flat_outcome(flat_run(base, now, serve)) is Ok,
        flat_outcome(flat_run(base, now, serve))->Ok_0.packages.len() == parse_text(
            body_text(false, body)->Ok_0,
        ).len(),
        forall|i: int|
            0 <= i < parse_text(body_text(false, body)->Ok_0).len() ==> (#[trigger] flat_outcome(
                flat_run(base, now, serve),
            )->Ok_0.packages[i]).info.identity.name == lookup(
                parse_text(body_text(false, body)->Ok_0)[i],
                "Package"@,
            )->Some_0,
{
    let ps = parse_text(body_text(false, body)->Ok_0);
    lemma_flat_fallback(base, now, serve);
    lemma_gathered_all(ps, base, now);
}

/// The entry of the catalog for a package of the mirror at `base`, as of
/// `now`.
pub open spec fn entry_of_package(p: PackageView, base: UrlView, now: Timestamp) -> MetaView {
    MetaView {
        last_modified: now,
        info: crate::package::record_of_package(p),
        url: resolved(base, download_path(first_lookup(p.other_fields, "Filename"@), p.package)),
    }
}

/// The catalog of the packages that a session gathered from the mirror at
/// `base`: one entry for each package, in order, all dated `now`.
pub fn catalog_of(packages: Vec<Package>, base: &URL, now: Timestamp) -> (r: RepoData)
    ensures
        r@ == (RepoView {
            author: archive_author(),
            last_modified: now,
            packages: packages_view(packages@).map_values(
                |p: PackageView| entry_of_package(p, base@, now),
            ),
        }),
{
    let ghost all = packages_view(packages@);
    let ghost conv = |p: PackageView| entry_of_package(p, base@, now);
    let mut entries: Vec<PackageMetaData> = Vec::new();
    assert(metas_view(entries@) =~= all.take(0).map_values(conv));
    for p in it: packages
        invariant
            it.seq() == packages@,
            all == packages_view(packages@),
            conv == |p: PackageView| entry_of_package(p, base@, now),
            metas_view(entries@) == all.take(it.index() as int).map_values(conv),
    {
        let ghost pv = p@;
        let link = download_url(
            base,
            first_value(&p.other_fields, "Filename"),
            p.package.as_str(),
        );
        let m = PackageMetaData { last_modified: now, info: p.into_record(), url: link };
        proof {
            let n = it.index() as int;
            assert(all.take(n + 1) =~= all.take(n).push(pv));
            assert(all.take(n).push(pv).map_values(conv) =~= all.take(n).map_values(conv).push(
                conv(pv),
            ));
            assert(metas_view(entries@.push(m)) =~= metas_view(entries@).push(m@));
        }
        entries.push(m);
    }
    assert(all.take(all.len() as int) == all);
    RepoData {
        author: Maintainer {
            name: string_of(&chars_of("Debian Repository")),
            email: string_of(&chars_of("debian@debian.org")),
        },
        last_modified: now,
        packages: entries,
    }
}

} // verus!
