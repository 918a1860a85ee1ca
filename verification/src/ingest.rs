//! The conversion of a Debian binary package into the native format, as a
//! sequence of stages. Each stage names the work to be done in the package
//! directory; the caller does it and reports back.

use crate::control::{parse_control, parse_control_file};
use crate::error::{control_message, Error, ErrorKind, ErrorView};
use crate::record::{record_of, to_package_data, PackageRecord, RecordView};
use crate::relation::ControlError;
use crate::text::{begins_with, chars_of, same_str, starts_with, string_of};
use vstd::prelude::*;

verus! {

/// The kinds of package directory.
#[derive(Debug, Clone, Copy, PartialEq, Eq)]
pub enum PkgType {
    Debian,
    Unknown,
}

impl PkgType {
    /// The name of the kind.
    pub fn name(&self) -> (r: &'static str)
        ensures
            r@ == (match self {
                PkgType::Debian => "DebainPackage"@,
                PkgType::Unknown => "Unknown"@,
            }),
    {
        match self {
            PkgType::Debian => "DebainPackage",
            PkgType::Unknown => "Unknown",
        }
    }
}

/// One entry of a directory: its name, and whether it is a regular file.
#[derive(Debug, Clone)]
pub struct DirEntry {
    pub name: String,
    pub is_file: bool,
}

/// One entry of a directory, as plain values.
pub struct EntryView {
    pub name: Seq<char>,
    pub is_file: bool,
}

impl View for DirEntry {
    type V = EntryView;

    open spec fn view(&self) -> EntryView {
        EntryView { name: self.name@, is_file: self.is_file }
    }
}

/// The views of the entries of a directory.
pub open spec fn entries_view(v: Seq<DirEntry>) -> Seq<EntryView> {
    v.map_values(|e: DirEntry| e@)
}

/// Whether the directory holds a regular file named `debian-binary`.
pub open spec fn has_marker(entries: Seq<EntryView>) -> bool {
    exists|i: int|
        0 <= i < entries.len() && (#[trigger] entries[i]).name == "debian-binary"@
            && entries[i].is_file
}

/// Whether the directory holds an entry whose name begins with `prefix`.
pub open spec fn has_prefixed(entries: Seq<EntryView>, prefix: Seq<char>) -> bool {
    exists|i: int| 0 <= i < entries.len() && begins_with((#[trigger] entries[i]).name, prefix)
}

/// A directory is a Debian binary package where it holds a regular file
/// named `debian-binary`, an entry whose name begins with `control.tar.`
/// and one whose name begins with `data.tar.`.
pub open spec fn is_debian(entries: Seq<EntryView>) -> bool {
    has_marker(entries) && has_prefixed(entries, "control.tar."@) && has_prefixed(
        entries,
        "data.tar."@,
    )
}

/// The kind of the directory.
pub open spec fn kind_of(entries: Seq<EntryView>) -> PkgType {
    if is_debian(entries) {
        PkgType::Debian
    } else {
        PkgType::Unknown
    }
}

fn debian(dir: &Vec<DirEntry>) -> (r: bool)
    ensures
        r == is_debian(entries_view(dir@)),
{
    let ghost all = entries_view(dir@);
    let control = chars_of("control.tar.");
    let data = chars_of("data.tar.");
    let mut marker = false;
    let mut has_control = false;
    let mut has_data = false;
    let mut i: usize = 0;
    while i < dir.len()
        invariant
            i <= dir.len(),
            all == entries_view(dir@),
            control@ == "control.tar."@,
            data@ == "data.tar."@,
            marker == has_marker(all.take(i as int)),
            has_control == has_prefixed(all.take(i as int), control@),
            has_data == has_prefixed(all.take(i as int), data@),
        decreases dir.len() - i,
    {
        let e = &dir[i];
        let name = chars_of(e.name.as_str());
        let ghost pre = all.take(i as int);
        let ghost cur = all.take(i + 1);
        let is_marker = e.is_file && same_str(e.name.as_str(), "debian-binary");
        let is_control = starts_with(&name, &control);
        let is_data = starts_with(&name, &data);
        proof {
            assert(cur[i as int] == e@);
            assert forall|k: int| 0 <= k < i implies cur[k] == pre[k] by {}
            if has_marker(pre) {
                let k = choose|k: int|
                    0 <= k < pre.len() && (#[trigger] pre[k]).name == "debian-binary"@
                        && pre[k].is_file;
                assert(cur[k] == pre[k]);
            }
            if has_marker(cur) && !is_marker {
                let k = choose|k: int|
                    0 <= k < cur.len() && (#[trigger] cur[k]).name == "debian-binary"@
                        && cur[k].is_file;
                assert(pre[k] == cur[k]);
            }
            if has_prefixed(pre, control@) {
                let k = choose|k: int|
                    0 <= k < pre.len() && begins_with((#[trigger] pre[k]).name, control@);
                assert(cur[k] == pre[k]);
            }
            if has_prefixed(cur, control@) && !is_control {
                let k = choose|k: int|
                    0 <= k < cur.len() && begins_with((#[trigger] cur[k]).name, control@);
                assert(pre[k] == cur[k]);
            }
            if has_prefixed(pre, data@) {
                let k = choose|k: int|
                    0 <= k < pre.len() && begins_with((#[trigger] pre[k]).name, data@);
                assert(cur[k] == pre[k]);
            }
            if has_prefixed(cur, data@) && !is_data {
                let k = choose|k: int|
                    0 <= k < cur.len() && begins_with((#[trigger] cur[k]).name, data@);
                assert(pre[k] == cur[k]);
            }
        }
        marker = marker || is_marker;
        has_control = has_control || is_control;
        has_data = has_data || is_data;
        i = i + 1;
    }
    assert(all.take(dir.len() as int) == all);
    marker && has_control && has_data
}

/// The kind of the directory whose entries are `dir`.
pub fn get_pkgtype(dir: &Vec<DirEntry>) -> (r: PkgType)
    ensures
        r == kind_of(entries_view(dir@)),
{
    if debian(dir) {
        PkgType::Debian
    } else {
        PkgType::Unknown
    }
}

/// One file to create: where, and with what content.
#[derive(Debug, Clone)]
pub struct SetUpItem {
    pub path: String,
    pub content: String,
}

/// One file to create, as plain values.
pub struct ItemView {
    pub path: Seq<char>,
    pub content: Seq<char>,
}

impl View for SetUpItem {
    type V = ItemView;

    open spec fn view(&self) -> ItemView {
        ItemView { path: self.path@, content: self.content@ }
    }
}

/// The views of a sequence of files to create.
pub open spec fn items_view(v: Seq<SetUpItem>) -> Seq<ItemView> {
    v.map_values(|i: SetUpItem| i@)
}

/// The file of the native scaffold that holds the project descriptor.
pub const DESCRIPTOR_FILE: &'static str = "ipak/project.yaml";

/// The script that installs a converted Debian package.
pub const INSTALL_SCRIPT: &'static str = "#!/bin/sh\nset -e\nroot=\"${IPAK_ROOT:-/}\"\ncp -a data/. \"$root\"\nif [ -x control/postinst ]; then\n    control/postinst configure\nfi\n";

/// The script that removes a converted Debian package.
pub const REMOVE_SCRIPT: &'static str = "#!/bin/sh\nset -e\nroot=\"${IPAK_ROOT:-/}\"\nif [ -x control/prerm ]; then\n    control/prerm remove\nfi\n(cd data && find . -type f -o -type l) | while read -r file; do\n    rm -f \"$root/$file\"\ndone\nif [ -x control/postrm ]; then\n    control/postrm remove\nfi\n";

/// The script that purges a converted Debian package.
pub const PURGE_SCRIPT: &'static str = "#!/bin/sh\nset -e\nif [ -x control/postrm ]; then\n    control/postrm purge\nfi\n";

/// The lifecycle scripts of a converted Debian package.
pub open spec fn debian_scripts() -> Seq<ItemView> {
    seq![
        ItemView { path: "ipak/scripts/install.sh"@, content: INSTALL_SCRIPT@ },
        ItemView { path: "ipak/scripts/remove.sh"@, content: REMOVE_SCRIPT@ },
        ItemView { path: "ipak/scripts/purge.sh"@, content: PURGE_SCRIPT@ },
    ]
}

/// The error for a kind of package that has no templates.
pub open spec fn unknown_kind() -> ErrorView {
    ErrorView {
        kind: ErrorKind::MalformedInput,
        message: "Unknown package type"@,
        causes: Seq::empty(),
    }
}

fn item(path: &str, content: &str) -> (r: SetUpItem)
    ensures
        r@ == (ItemView { path: path@, content: content@ }),
{
    SetUpItem { path: string_of(&chars_of(path)), content: string_of(&chars_of(content)) }
}

fn debian_items() -> (items: Vec<SetUpItem>)
    ensures
        items_view(items@) == debian_scripts(),
{
    let mut items: Vec<SetUpItem> = Vec::new();
    items.push(item("ipak/scripts/install.sh", INSTALL_SCRIPT));
    items.push(item("ipak/scripts/remove.sh", REMOVE_SCRIPT));
    items.push(item("ipak/scripts/purge.sh", PURGE_SCRIPT));
    assert(items_view(items@) =~= debian_scripts());
    items
}

/// The files that the native scaffold of a package of the given kind
/// consists of besides its descriptor: the three lifecycle scripts for a
/// Debian package; there are none for an unknown kind, which is an error.
pub fn set(pkg_type: PkgType) -> (r: Result<Vec<SetUpItem>, Error>)
    ensures
        match r {
            Ok(items) => pkg_type == PkgType::Debian && items_view(items@) == debian_scripts(),
            Err(e) => pkg_type == PkgType::Unknown && e@ == unknown_kind(),
        },
{
    match pkg_type {
        PkgType::Debian => Ok(debian_items()),
        PkgType::Unknown => {
            let e = Error::new(
                ErrorKind::MalformedInput,
                string_of(&chars_of("Unknown package type")),
                Vec::new(),
            );
            assert(e@.causes =~= Seq::<Seq<char>>::empty());
            Err(e)
        },
    }
}

/// The error that reports a control file that describes no package.
pub open spec fn refused_control(e: ControlError) -> ErrorView {
    ErrorView { kind: ErrorKind::MalformedInput, message: control_message(e), causes: Seq::empty() }
}

/// The record that the control file of a Debian package describes.
pub fn load_debinfo(control_file: &str) -> (r: Result<PackageRecord, Error>)
    ensures
        match r {
            Ok(rec) => record_of(parse_control(control_file@)) == Ok::<RecordView, ControlError>(
                rec@,
            ),
            Err(e) => record_of(parse_control(control_file@)) is Err && e@ == refused_control(
                record_of(parse_control(control_file@))->Err_0,
            ),
        },
{
    let paragraph = match parse_control_file(control_file) {
        Ok(p) => p,
        Err(e) => {
            return Err(Error::malformed(e));
        },
    };
    match to_package_data(&paragraph) {
        Ok(rec) => Ok(rec),
        Err(e) => Err(Error::malformed(e)),
    }
}

/// One operation on the package directory.
#[derive(Debug, Clone)]
pub enum FileOp {
    /// Create the directory and its parents.
    CreateDir(String),
    /// Extract the archive into the directory.
    Extract { archive: String, into: String },
    /// Remove the file.
    Remove(String),
}

/// One operation on the package directory, as plain values.
pub enum OpView {
    CreateDir(Seq<char>),
    Extract { archive: Seq<char>, into: Seq<char> },
    Remove(Seq<char>),
}

impl View for FileOp {
    type V = OpView;

    open spec fn view(&self) -> OpView {
        match self {
            FileOp::CreateDir(d) => OpView::CreateDir(d@),
            FileOp::Extract { archive, into } => OpView::Extract { archive: archive@, into: into@ },
            FileOp::Remove(f) => OpView::Remove(f@),
        }
    }
}

/// The views of a sequence of operations.
pub open spec fn ops_view(v: Seq<FileOp>) -> Seq<OpView> {
    v.map_values(|o: FileOp| o@)
}

/// What the extraction does with one entry: a `data.tar.*` archive is
/// extracted into `data` and removed, a `control.tar.*` archive into
/// `control`; any other entry is left alone.
pub open spec fn ops_for(e: EntryView) -> Seq<OpView> {
    if begins_with(e.name, "data.tar."@) {
        seq![OpView::Extract { archive: e.name, into: "data"@ }, OpView::Remove(e.name)]
    } else if begins_with(e.name, "control.tar."@) {
        seq![OpView::Extract { archive: e.name, into: "control"@ }, OpView::Remove(e.name)]
    } else {
        Seq::empty()
    }
}

/// What the extraction does with the entries, in their order.
pub open spec fn ops_for_all(entries: Seq<EntryView>) -> Seq<OpView>
    decreases entries.len(),
{
    if entries.len() == 0 {
        Seq::empty()
    } else {
        ops_for_all(entries.drop_last()) + ops_for(entries.last())
    }
}

/// The whole extraction: both directories are created first, then the
/// archives are dealt with in the order of the listing.
pub open spec fn extraction(entries: Seq<EntryView>) -> Seq<OpView> {
    seq![OpView::CreateDir("data"@), OpView::CreateDir("control"@)] + ops_for_all(entries)
}

fn extraction_of(dir: &Vec<DirEntry>) -> (out: Vec<FileOp>)
    ensures
        ops_view(out@) == extraction(entries_view(dir@)),
{
    let ghost all = entries_view(dir@);
    let ghost head = seq![OpView::CreateDir("data"@), OpView::CreateDir("control"@)];
    let control = chars_of("control.tar.");
    let data = chars_of("data.tar.");
    let mut out: Vec<FileOp> = Vec::new();
    out.push(FileOp::CreateDir(string_of(&chars_of("data"))));
    out.push(FileOp::CreateDir(string_of(&chars_of("control"))));
    let mut i: usize = 0;
    assert(ops_view(out@) =~= head + ops_for_all(all.take(0)));
    while i < dir.len()
        invariant
            i <= dir.len(),
            all == entries_view(dir@),
            head == seq![OpView::CreateDir("data"@), OpView::CreateDir("control"@)],
            control@ == "control.tar."@,
            data@ == "data.tar."@,
            ops_view(out@) == head + ops_for_all(all.take(i as int)),
        decreases dir.len() - i,
    {
        let e = &dir[i];
        let name = chars_of(e.name.as_str());
        let ghost before = ops_view(out@);
        proof {
            let pre = all.take(i + 1);
            assert(pre.drop_last() == all.take(i as int));
            assert(pre.last() == e@);
        }
        if starts_with(&name, &data) {
            let x = FileOp::Extract { archive: e.name.clone(), into: string_of(&chars_of("data")) };
            let r = FileOp::Remove(e.name.clone());
            assert(ops_view(out@.push(x).push(r)) =~= before + seq![x@, r@]);
            out.push(x);
            out.push(r);
        } else if starts_with(&name, &control) {
            let x = FileOp::Extract {
                archive: e.name.clone(),
                into: string_of(&chars_of("control")),
            };
            let r = FileOp::Remove(e.name.clone());
            assert(ops_view(out@.push(x).push(r)) =~= before + seq![x@, r@]);
            out.push(x);
            out.push(r);
        }
        assert(ops_view(out@) =~= head + ops_for_all(all.take(i + 1)));
        i = i + 1;
    }
    assert(all.take(dir.len() as int) == all);
    out
}

/// The stages of a conversion.
#[derive(Debug, Clone, Copy, PartialEq, Eq)]
pub enum Stage {
    /// The directory is to be listed and classified.
    Detect,
    /// The outer archives are to be extracted.
    ExtractOuter,
    /// The control file is to be read and parsed.
    ParseControl,
    /// The native scaffold is to be written.
    EmitNative,
    /// The conversion is complete.
    Done,
    /// The conversion has failed, for the given kind of reason.
    Failed(ErrorKind),
}

/// What the caller reports after the work of a stage.
#[derive(Debug)]
pub enum Report {
    /// The entries of the package directory.
    Listing(Vec<DirEntry>),
    /// The extraction went through, or why not.
    Extracted(Result<(), String>),
    /// The text of the control file, or why it could not be read.
    Control(Result<String, String>),
    /// The scaffold was written, or why not.
    Emitted(Result<(), String>),
}

/// What the caller reports after the work of a stage, as plain values.
pub enum ReportView {
    Listing(Seq<EntryView>),
    Extracted(Result<(), Seq<char>>),
    Control(Result<Seq<char>, Seq<char>>),
    Emitted(Result<(), Seq<char>>),
}

impl View for Report {
    type V = ReportView;

    open spec fn view(&self) -> ReportView {
        match self {
            Report::Listing(dir) => ReportView::Listing(entries_view(dir@)),
            Report::Extracted(r) => ReportView::Extracted(
                match r {
                    Ok(_) => Ok(()),
                    Err(c) => Err(c@),
                },
            ),
            Report::Control(r) => ReportView::Control(
                match r {
                    Ok(t) => Ok(t@),
                    Err(c) => Err(c@),
                },
            ),
            Report::Emitted(r) => ReportView::Emitted(
                match r {
                    Ok(_) => Ok(()),
                    Err(c) => Err(c@),
                },
            ),
        }
    }
}

/// The work of a stage.
#[derive(Debug)]
pub enum Action {
    /// List the package directory.
    List,
    /// Perform the operations in order; any failure fails them all.
    Extract(Vec<FileOp>),
    /// Read the file as text.
    ReadControl(String),
    /// Write the record as the project descriptor at `descriptor`, then
    /// each of the files, creating the directories that they lie in.
    Emit { descriptor: String, record: PackageRecord, files: Vec<SetUpItem> },
    /// Nothing is left to do; the conversion ended as given.
    Stop(Result<(), Error>),
}

/// The work of a stage, as plain values.
pub enum ActionView {
    List,
    Extract(Seq<OpView>),
    ReadControl(Seq<char>),
    Emit { descriptor: Seq<char>, record: RecordView, files: Seq<ItemView> },
    Stop(Result<(), ErrorView>),
}

impl View for Action {
    type V = ActionView;

    open spec fn view(&self) -> ActionView {
        match self {
            Action::List => ActionView::List,
            Action::Extract(ops) => ActionView::Extract(ops_view(ops@)),
            Action::ReadControl(p) => ActionView::ReadControl(p@),
            Action::Emit { descriptor, record, files } => ActionView::Emit {
                descriptor: descriptor@,
                record: record@,
                files: items_view(files@),
            },
            Action::Stop(r) => ActionView::Stop(
                match r {
                    Ok(_) => Ok(()),
                    Err(e) => Err(e@),
                },
            ),
        }
    }
}

/// The error of a conversion that stops for a reason of kind `kind`.
pub open spec fn stop_error(kind: ErrorKind, message: Seq<char>) -> ErrorView {
    ErrorView { kind, message, causes: Seq::empty() }
}

/// A stage with the work that it asks for.
pub struct Turn {
    pub stage: Stage,
    pub action: ActionView,
}

/// The failure of a conversion.
pub open spec fn fail(kind: ErrorKind, message: Seq<char>) -> Turn {
    Turn { stage: Stage::Failed(kind), action: ActionView::Stop(Err(stop_error(kind, message))) }
}

/// The first turn of every conversion.
pub open spec fn first_turn() -> Turn {
    Turn { stage: Stage::Detect, action: ActionView::List }
}

/// The turn that follows `stage` once its work is reported.
///
/// A directory that is no Debian package fails with `NotFound`. A failure
/// to extract, to read the control file or to write the scaffold is
/// `Fatal`; a control file that describes no package is `MalformedInput`.
/// A report that does not answer the stage is `Fatal` too, and a conversion
/// that has ended stays as it is.
pub open spec fn next_turn(stage: Stage, report: ReportView) -> Turn {
    match (stage, report) {
        (Stage::Detect, ReportView::Listing(entries)) => if is_debian(entries) {
            Turn { stage: Stage::ExtractOuter, action: ActionView::Extract(extraction(entries)) }
        } else {
            fail(ErrorKind::NotFound, "not a Debian binary package"@)
        },
        (Stage::ExtractOuter, ReportView::Extracted(Ok(_))) => Turn {
            stage: Stage::ParseControl,
            action: ActionView::ReadControl("control/control"@),
        },
        (Stage::ExtractOuter, ReportView::Extracted(Err(c))) => fail(ErrorKind::Fatal, c),
        (Stage::ParseControl, ReportView::Control(Ok(text))) => match record_of(
            parse_control(text),
        ) {
            Ok(record) => Turn {
                stage: Stage::EmitNative,
                action: ActionView::Emit {
                    descriptor: DESCRIPTOR_FILE@,
                    record,
                    files: debian_scripts(),
                },
            },
            Err(e) => fail(ErrorKind::MalformedInput, control_message(e)),
        },
        (Stage::ParseControl, ReportView::Control(Err(c))) => fail(ErrorKind::Fatal, c),
        (Stage::EmitNative, ReportView::Emitted(Ok(_))) => Turn {
            stage: Stage::Done,
            action: ActionView::Stop(Ok(())),
        },
        (Stage::EmitNative, ReportView::Emitted(Err(c))) => fail(ErrorKind::Fatal, c),
        (Stage::Done, _) => Turn { stage: Stage::Done, action: ActionView::Stop(Ok(())) },
        (Stage::Failed(kind), _) => Turn {
            stage: Stage::Failed(kind),
            action: ActionView::Stop(Err(stop_error(kind, "the conversion has failed"@))),
        },
        _ => fail(ErrorKind::Fatal, "the report does not answer the stage"@),
    }
}

fn failing(kind: ErrorKind, message: String) -> (r: (Stage, Action))
    ensures
        r.0 == fail(kind, message@).stage,
        r.1@ == fail(kind, message@).action,
{
    let e = Error::new(kind, message, Vec::new());
    assert(e@.causes =~= Seq::<Seq<char>>::empty());
    (Stage::Failed(kind), Action::Stop(Err(e)))
}

/// The first stage of a conversion and its work.
pub fn begin() -> (r: (Stage, Action))
    ensures
        r.0 == first_turn().stage,
        r.1@ == first_turn().action,
{
    (Stage::Detect, Action::List)
}

/// Moves a conversion on: given the stage whose work was done and the
/// report of it, the next stage and its work.
pub fn convert(stage: Stage, report: Report) -> (r: (Stage, Action))
    ensures
        r.0 == next_turn(stage, report@).stage,
        r.1@ == next_turn(stage, report@).action,
{
    match stage {
        Stage::Done => (Stage::Done, Action::Stop(Ok(()))),
        Stage::Failed(kind) => failing(kind, string_of(&chars_of("the conversion has failed"))),
        Stage::Detect => match report {
            Report::Listing(dir) => {
                if debian(&dir) {
                    (Stage::ExtractOuter, Action::Extract(extraction_of(&dir)))
                } else {
                    failing(ErrorKind::NotFound, string_of(&chars_of("not a Debian binary package")))
                }
            },
            _ => failing(
                ErrorKind::Fatal,
                string_of(&chars_of("the report does not answer the stage")),
            ),
        },
        Stage::ExtractOuter => match report {
            Report::Extracted(Ok(_)) => (
                Stage::ParseControl,
                Action::ReadControl(string_of(&chars_of("control/control"))),
            ),
            Report::Extracted(Err(c)) => failing(ErrorKind::Fatal, c),
            _ => failing(
                ErrorKind::Fatal,
                string_of(&chars_of("the report does not answer the stage")),
            ),
        },
        Stage::ParseControl => match report {
            Report::Control(Ok(text)) => match load_debinfo(text.as_str()) {
                Ok(record) => (
                    Stage::EmitNative,
                    Action::Emit {
                        descriptor: string_of(&chars_of(DESCRIPTOR_FILE)),
                        record,
                        files: debian_items(),
                    },
                ),
                Err(e) => failing(ErrorKind::MalformedInput, e.message),
            },
            Report::Control(Err(c)) => failing(ErrorKind::Fatal, c),
            _ => failing(
                ErrorKind::Fatal,
                string_of(&chars_of("the report does not answer the stage")),
            ),
        },
        Stage::EmitNative => match report {
            Report::Emitted(Ok(_)) => (Stage::Done, Action::Stop(Ok(()))),
            Report::Emitted(Err(c)) => failing(ErrorKind::Fatal, c),
            _ => failing(
                ErrorKind::Fatal,
                string_of(&chars_of("the report does not answer the stage")),
            ),
        },
    }
}

/// A directory without a regular file named `debian-binary` is no Debian
/// package, and its conversion fails with `NotFound` at once: the turn that
/// follows the listing asks for no work in the directory.
pub proof fn lemma_missing_marker_stops_conversion(entries: Seq<EntryView>)
    requires
        !has_marker(entries),
    ensures
        kind_of(entries) == PkgType::Unknown,
        next_turn(Stage::Detect, ReportView::Listing(entries)).stage == Stage::Failed(
            ErrorKind::NotFound,
        ),
        next_turn(Stage::Detect, ReportView::Listing(entries)).action is Stop,
        next_turn(Stage::Detect, ReportView::Listing(entries)).action->Stop_0 is Err,
        next_turn(Stage::Detect, ReportView::Listing(entries)).action->Stop_0->Err_0.kind
            == ErrorKind::NotFound,
{
}

/// A conversion that has failed asks for no further work, whatever is
/// reported to it.
pub proof fn lemma_failure_is_final(kind: ErrorKind, report: ReportView)
    ensures
        next_turn(Stage::Failed(kind), report).stage == Stage::Failed(kind),
        next_turn(Stage::Failed(kind), report).action is Stop,
{
}

/// The conversion of a Debian package whose control file describes a
/// package runs through all of its stages: the listing leads to the
/// extraction of the outer archives, that to the reading of the control
/// file, that to the writing of the scaffold for the record that the file
/// describes, and that to the end.
pub proof fn lemma_conversion_completes(entries: Seq<EntryView>, control: Seq<char>)
    requires
        is_debian(entries),
        record_of(parse_control(control)) is Ok,
    ensures
        next_turn(Stage::Detect, ReportView::Listing(entries)) == (Turn {
            stage: Stage::ExtractOuter,
            action: ActionView::Extract(extraction(entries)),
        }),
        next_turn(Stage::ExtractOuter, ReportView::Extracted(Ok(()))) == (Turn {
            stage: Stage::ParseControl,
            action: ActionView::ReadControl("control/control"@),
        }),
        next_turn(Stage::ParseControl, ReportView::Control(Ok(control))) == (Turn {
            stage: Stage::EmitNative,
            action: ActionView::Emit {
                descriptor: DESCRIPTOR_FILE@,
                record: record_of(parse_control(control))->Ok_0,
                files: debian_scripts(),
            },
        }),
        next_turn(Stage::EmitNative, ReportView::Emitted(Ok(()))) == (Turn {
            stage: Stage::Done,
            action: ActionView::Stop(Ok(())),
        }),
{
}

/// Any failure that is reported to a conversion ends it: the turn that
/// follows asks for no further work.
pub proof fn lemma_reported_failure_stops_conversion(stage: Stage, cause: Seq<char>)
    ensures
        next_turn(stage, ReportView::Extracted(Err(cause))).action is Stop,
        next_turn(stage, ReportView::Control(Err(cause))).action is Stop,
        next_turn(stage, ReportView::Emitted(Err(cause))).action is Stop,
        !(stage is Done) ==> next_turn(stage, ReportView::Extracted(Err(cause))).stage is Failed
            && next_turn(stage, ReportView::Control(Err(cause))).stage is Failed && next_turn(
            stage,
            ReportView::Emitted(Err(cause)),
        ).stage is Failed,
{
}

} // verus!
