//! The errors of the library and the lines that report them.

use vstd::prelude::*;
use crate::text::{append, chars_of, same_text, string_of};

verus! {

/// Where a path was looked for and not found.
#[derive(Clone, Copy, Debug, PartialEq, Eq, Structural)]
pub enum Missing {
    /// Nothing exists at the path.
    OnDisk,
    /// The tracking list has no such entry.
    InTrackingList,
    /// No staged change belongs to the path.
    AmongChanges,
}

/// Why an operation on a path was refused.
#[derive(Clone, Debug, PartialEq, Eq)]
pub enum Error {
    /// The path was not found.
    NotFound(Missing),
    /// The tracking list holds the path already.
    AlreadyTracked,
    /// The tracking list holds an entry that the path lies under.
    Conflict { ancestor: String },
}

/// What `error` is, with the ancestor's text in place of the string.
pub enum ErrorView {
    NotFound(Missing),
    AlreadyTracked,
    Conflict { ancestor: Seq<char> },
}

impl View for Error {
    type V = ErrorView;

    open spec fn view(&self) -> ErrorView {
        match *self {
            Error::NotFound(missing) => ErrorView::NotFound(missing),
            Error::AlreadyTracked => ErrorView::AlreadyTracked,
            Error::Conflict { ancestor } => ErrorView::Conflict { ancestor: ancestor@ },
        }
    }
}

/// The label of the line that reports `error`.
pub open spec fn label_of(error: ErrorView) -> Seq<char> {
    match error {
        ErrorView::NotFound(Missing::AmongChanges) => "warn"@,
        ErrorView::NotFound(_) => "error"@,
        ErrorView::AlreadyTracked => "warn"@,
        ErrorView::Conflict { .. } => "warn"@,
    }
}

/// What the line that reports `error` says of the path.
pub open spec fn message_of(error: ErrorView) -> Seq<char> {
    match error {
        ErrorView::NotFound(Missing::OnDisk) => "did not match any files or folders"@,
        ErrorView::NotFound(Missing::InTrackingList) =>
            "did not match any files or folders in the tracking list"@,
        ErrorView::NotFound(Missing::AmongChanges) => "did not find any changes"@,
        ErrorView::AlreadyTracked => "is already in the tracking list"@,
        ErrorView::Conflict { ancestor } => "entry exists at lower depth: '"@ + ancestor + "'"@,
    }
}

/// The status a process ends with after `error`: a path without staged
/// changes is no failure, every other error is.
pub open spec fn exit_code_of(error: ErrorView) -> i32 {
    match error {
        ErrorView::NotFound(Missing::AmongChanges) => 0,
        _ => 2,
    }
}

/// The line that reports `msg` of `path` under the label `msgtype`: the
/// label in bold, red for `error` and yellow for any other, then the path in
/// quotes and the message.
pub open spec fn path_error_line(msgtype: Seq<char>, msg: Seq<char>, path: Seq<char>) -> Seq<
    char,
> {
    let color = if msgtype == "error"@ {
        "\u{1b}[31m"@
    } else {
        "\u{1b}[33m"@
    };
    color + "\u{1b}[1m"@ + msgtype + "\u{1b}[0m"@ + "\u{1b}[1m"@ + ":"@ + "\u{1b}[0m"@ + " '"@
        + path + "': "@ + msg
}

/// The line that reports `msg` of `path` under the label `msgtype`.
pub fn print_path_error(msgtype: &str, msg: &str, path: &String) -> (line: String)
    ensures
        line@ == path_error_line(msgtype@, msg@, path@),
{
    let label = chars_of(msgtype);
    let is_error = same_text(label.as_slice(), chars_of("error").as_slice());
    let mut line: Vec<char> = Vec::new();
    if is_error {
        append(&mut line, chars_of("\u{1b}[31m").as_slice());
    } else {
        append(&mut line, chars_of("\u{1b}[33m").as_slice());
    }
    append(&mut line, chars_of("\u{1b}[1m").as_slice());
    append(&mut line, label.as_slice());
    append(&mut line, chars_of("\u{1b}[0m").as_slice());
    append(&mut line, chars_of("\u{1b}[1m").as_slice());
    append(&mut line, chars_of(":").as_slice());
    append(&mut line, chars_of("\u{1b}[0m").as_slice());
    append(&mut line, chars_of(" '").as_slice());
    append(&mut line, chars_of(path.as_str()).as_slice());
    append(&mut line, chars_of("': ").as_slice());
    append(&mut line, chars_of(msg).as_slice());
    string_of(line.as_slice())
}

impl Error {
    /// The label of the line that reports this error.
    pub fn label(&self) -> (label: &'static str)
        ensures
            label@ == label_of(self@),
    {
        match self {
            Error::NotFound(Missing::AmongChanges) => "warn",
            Error::NotFound(_) => "error",
            Error::AlreadyTracked => "warn",
            Error::Conflict { .. } => "warn",
        }
    }

    /// What the line that reports this error says of the path.
    pub fn message(&self) -> (message: String)
        ensures
            message@ == message_of(self@),
    {
        match self {
            Error::NotFound(Missing::OnDisk) => string_of(
                chars_of("did not match any files or folders").as_slice(),
            ),
            Error::NotFound(Missing::InTrackingList) => string_of(
                chars_of("did not match any files or folders in the tracking list").as_slice(),
            ),
            Error::NotFound(Missing::AmongChanges) => string_of(
                chars_of("did not find any changes").as_slice(),
            ),
            Error::AlreadyTracked => string_of(
                chars_of("is already in the tracking list").as_slice(),
            ),
            Error::Conflict { ancestor } => {
                let mut message = chars_of("entry exists at lower depth: '");
                append(&mut message, chars_of(ancestor.as_str()).as_slice());
                append(&mut message, chars_of("'").as_slice());
                string_of(message.as_slice())
            },
        }
    }

    /// The line that reports this error of `path`.
    pub fn report(&self, path: &String) -> (line: String)
        ensures
            line@ == path_error_line(label_of(self@), message_of(self@), path@),
    {
        let message = self.message();
        print_path_error(self.label(), message.as_str(), path)
    }

    /// The status a process ends with after this error.
    pub fn exit_code(&self) -> (code: i32)
        ensures
            code == exit_code_of(self@),
    {
        match self {
            Error::NotFound(Missing::AmongChanges) => 0,
            _ => 2,
        }
    }
}

} // verus!
