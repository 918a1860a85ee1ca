//! The errors that the crate reports to its callers.

use crate::relation::{ControlError, Mandatory};
use crate::text::{chars_of, extend_str, str_views, string_of};
use vstd::prelude::*;

verus! {

/// The kinds of failure.
#[derive(Debug, Clone, Copy, PartialEq, Eq)]
pub enum ErrorKind {
    /// Any other failure.
    Other,
    /// An expected file or kind of input is absent.
    NotFound,
    /// Control text, a dependency token or a manifest cannot be read.
    MalformedInput,
    /// A source could not be fetched, its fallbacks included.
    SourceUnavailable,
    /// An aggregate operation finished with some parts skipped.
    PartialFailure,
    /// A failure that stops a conversion or a build at once.
    Fatal,
    /// An argument is not acceptable.
    InvalidInput,
}

/// An error: its kind, a message, and the causes that led to it.
#[derive(Debug, Clone)]
pub struct Error {
    pub kind: ErrorKind,
    pub message: String,
    pub causes: Vec<String>,
}

/// An error, as plain values.
pub struct ErrorView {
    pub kind: ErrorKind,
    pub message: Seq<char>,
    pub causes: Seq<Seq<char>>,
}

impl View for Error {
    type V = ErrorView;

    open spec fn view(&self) -> ErrorView {
        ErrorView { kind: self.kind, message: self.message@, causes: str_views(self.causes@) }
    }
}

/// The name of a kind of failure.
pub open spec fn kind_name(kind: ErrorKind) -> Seq<char> {
    match kind {
        ErrorKind::Other => "Other"@,
        ErrorKind::NotFound => "NotFound"@,
        ErrorKind::MalformedInput => "MalformedInput"@,
        ErrorKind::SourceUnavailable => "SourceUnavailable"@,
        ErrorKind::PartialFailure => "PartialFailure"@,
        ErrorKind::Fatal => "Fatal"@,
        ErrorKind::InvalidInput => "InvalidInput"@,
    }
}

/// The message that reports a refused piece of control text.
pub open spec fn control_message(e: ControlError) -> Seq<char> {
    match e {
        ControlError::MissingField(Mandatory::Package) => "Missing mandatory 'Package' field"@,
        ControlError::MissingField(Mandatory::Version) => "Missing mandatory 'Version' field"@,
        ControlError::MissingField(Mandatory::Maintainer) => "Missing mandatory 'Maintainer' field"@,
        ControlError::MalformedConstraint => "Malformed package relation"@,
    }
}

/// The causes of an error, each on a line of its own after a line feed and
/// four spaces.
pub open spec fn cause_lines(causes: Seq<Seq<char>>) -> Seq<char>
    decreases causes.len(),
{
    if causes.len() == 0 {
        Seq::empty()
    } else {
        cause_lines(causes.drop_last()) + "\n    "@ + causes.last()
    }
}

/// The lines of a message, each after a line feed and four spaces.
pub open spec fn message_lines(lines: Seq<Seq<char>>) -> Seq<char>
    decreases lines.len(),
{
    if lines.len() == 0 {
        Seq::empty()
    } else {
        message_lines(lines.drop_last()) + "\n    "@ + lines.last()
    }
}

/// The text of an error. An error without message and causes is the name
/// of its kind; any other names the kind, then the message line by line,
/// then the causes, each part only if it is there.
pub open spec fn describe(e: ErrorView) -> Seq<char> {
    if e.message.len() == 0 && e.causes.len() == 0 {
        "  "@ + kind_name(e.kind)
    } else {
        "  Kind: "@ + kind_name(e.kind) + (if e.message.len() > 0 {
            "\n  Message:"@ + message_lines(crate::text::split(e.message, '\n'))
        } else {
            Seq::empty()
        }) + (if e.causes.len() > 0 {
            "\n  Causes:"@ + cause_lines(e.causes)
        } else {
            Seq::empty()
        })
    }
}

impl ErrorKind {
    /// The name of the kind.
    pub fn name(&self) -> (r: &'static str)
        ensures
            r@ == kind_name(*self),
    {
        match self {
            ErrorKind::Other => "Other",
            ErrorKind::NotFound => "NotFound",
            ErrorKind::MalformedInput => "MalformedInput",
            ErrorKind::SourceUnavailable => "SourceUnavailable",
            ErrorKind::PartialFailure => "PartialFailure",
            ErrorKind::Fatal => "Fatal",
            ErrorKind::InvalidInput => "InvalidInput",
        }
    }
}

impl Error {
    /// An error of kind `Other` with the given message.
    pub fn other(message: String) -> (e: Error)
        ensures
            e@ == (ErrorView { kind: ErrorKind::Other, message: message@, causes: Seq::empty() }),
    {
        let e = Error { kind: ErrorKind::Other, message, causes: Vec::new() };
        assert(str_views(e.causes@) =~= Seq::<Seq<char>>::empty());
        e
    }

    /// An error of the given kind, message and causes.
    pub fn new(kind: ErrorKind, message: String, causes: Vec<String>) -> (e: Error)
        ensures
            e@ == (ErrorView { kind, message: message@, causes: str_views(causes@) }),
    {
        Error { kind, message, causes }
    }

    /// An error of the given kind without message or causes.
    pub fn of_kind(kind: ErrorKind) -> (e: Error)
        ensures
            e@ == (ErrorView { kind, message: Seq::empty(), causes: Seq::empty() }),
    {
        let e = Error { kind, message: String::new(), causes: Vec::new() };
        assert(str_views(e.causes@) =~= Seq::<Seq<char>>::empty());
        e
    }

    /// The error that reports a refused piece of control text.
    pub fn malformed(e: ControlError) -> (r: Error)
        ensures
            r@ == (ErrorView {
                kind: ErrorKind::MalformedInput,
                message: control_message(e),
                causes: Seq::empty(),
            }),
    {
        let text = match e {
            ControlError::MissingField(Mandatory::Package) => "Missing mandatory 'Package' field",
            ControlError::MissingField(Mandatory::Version) => "Missing mandatory 'Version' field",
            ControlError::MissingField(Mandatory::Maintainer) => {
                "Missing mandatory 'Maintainer' field"
            },
            ControlError::MalformedConstraint => "Malformed package relation",
        };
        let r = Error {
            kind: ErrorKind::MalformedInput,
            message: string_of(&chars_of(text)),
            causes: Vec::new(),
        };
        assert(str_views(r.causes@) =~= Seq::<Seq<char>>::empty());
        r
    }

    /// The text of the error.
    pub fn to_string(&self) -> (r: String)
        ensures
            r@ == describe(self@),
    {
        let mut out: Vec<char> = Vec::new();
        if self.message.as_str().unicode_len() == 0 && self.causes.len() == 0 {
            extend_str(&mut out, "  ");
            extend_str(&mut out, self.kind.name());
            assert(out@ =~= describe(self@));
            return string_of(&out);
        }
        extend_str(&mut out, "  Kind: ");
        extend_str(&mut out, self.kind.name());
        if self.message.as_str().unicode_len() > 0 {
            extend_str(&mut out, "\n  Message:");
            let ghost base = out@;
            let text = chars_of(self.message.as_str());
            let lines = crate::text::split_on(&text, '\n');
            let ghost all = crate::text::views(lines@);
            let mut k: usize = 0;
            assert(out@ =~= base + message_lines(all.take(0)));
            while k < lines.len()
                invariant
                    k <= lines.len(),
                    all == crate::text::views(lines@),
                    out@ == base + message_lines(all.take(k as int)),
                decreases lines.len() - k,
            {
                proof {
                    let pre = all.take(k + 1);
                    assert(pre.drop_last() == all.take(k as int));
                    assert(pre.last() == lines@[k as int]@);
                }
                extend_str(&mut out, "\n    ");
                crate::text::extend(&mut out, &lines[k]);
                assert(out@ =~= base + message_lines(all.take(k + 1)));
                k = k + 1;
            }
            assert(all.take(lines.len() as int) == all);
        }
        if self.causes.len() > 0 {
            extend_str(&mut out, "\n  Causes:");
            let ghost base = out@;
            let mut i: usize = 0;
            assert(str_views(self.causes@).take(0) =~= Seq::<Seq<char>>::empty());
            while i < self.causes.len()
                invariant
                    i <= self.causes.len(),
                    out@ == base + cause_lines(str_views(self.causes@).take(i as int)),
                decreases self.causes.len() - i,
            {
                proof {
                    let pre = str_views(self.causes@).take(i + 1);
                    assert(pre.drop_last() == str_views(self.causes@).take(i as int));
                    assert(pre.last() == self.causes@[i as int]@);
                }
                extend_str(&mut out, "\n    ");
                extend_str(&mut out, self.causes[i].as_str());
                i = i + 1;
            }
            assert(str_views(self.causes@).take(self.causes.len() as int) == str_views(
                self.causes@,
            ));
        }
        assert(out@ =~= describe(self@));
        string_of(&out)
    }
}

} // verus!
