//! What can go wrong, and how it reads.
use vstd::prelude::*;
use vstd::string::*;

use crate::path;
use crate::path::UnixPath;
use crate::text;

verus! {

/// The reasons of the system that decisions depend on.
#[derive(Debug, Clone, Copy, PartialEq, Eq, Structural)]
pub enum IoErrorKind {
    NotFound,
    PermissionDenied,
    Other,
}

/// A refusal of the system, with its own words.
#[derive(Debug)]
pub struct IoError {
    pub kind: IoErrorKind,
    pub message: String,
}

#[derive(Debug)]
pub enum Error {
    /// The system refused an operation.
    Io(IoError),
    /// The configuration is not of the expected form.
    Config(String),
    /// A rule is broken.
    Invalid(String),
    /// Something else stands at a target.
    Conflict(UnixPath),
    /// A program that was run did not succeed. Without a code, a signal ended it.
    CommandFailed { program: &'static str, code: Option<i32> },
}

pub struct IoErrorView {
    pub kind: IoErrorKind,
    pub message: Seq<char>,
}

pub enum ErrorView {
    Io(IoErrorView),
    Config(Seq<char>),
    Invalid(Seq<char>),
    Conflict(Seq<u8>),
    CommandFailed { program: Seq<char>, code: Option<i32> },
}

impl View for IoError {
    type V = IoErrorView;

    open spec fn view(&self) -> IoErrorView {
        IoErrorView { kind: self.kind, message: self.message@ }
    }
}

impl View for Error {
    type V = ErrorView;

    open spec fn view(&self) -> ErrorView {
        match self {
            Error::Io(error) => ErrorView::Io(error@),
            Error::Config(message) => ErrorView::Config(message@),
            Error::Invalid(message) => ErrorView::Invalid(message@),
            Error::Conflict(target) => ErrorView::Conflict(target@),
            Error::CommandFailed { program, code } => ErrorView::CommandFailed {
                program: program@,
                code: *code,
            },
        }
    }
}

/// How an error reads.
pub open spec fn error_text(error: ErrorView) -> Seq<char> {
    match error {
        ErrorView::Io(error) => error.message,
        ErrorView::Config(message) => "invalid configuration: "@ + message,
        ErrorView::Invalid(message) => message,
        ErrorView::Conflict(target) => "refusing to replace conflicting path "@ + path::path_text(
            target,
        ) + " (use --force)"@,
        ErrorView::CommandFailed { program, code } => program + " failed with exit status "@ + (
        match code {
            Some(code) => text::decimal_text(code),
            None => "unknown"@,
        }),
    }
}

impl From<IoError> for Error {
    fn from(error: IoError) -> (result: Error) {
        Error::Io(error)
    }
}

impl vstd::std_specs::convert::FromSpecImpl<IoError> for Error {
    open spec fn obeys_from_spec() -> bool {
        true
    }

    open spec fn from_spec(error: IoError) -> Error {
        Error::Io(error)
    }
}

impl Error {
    /// How this error reads.
    pub fn message(&self) -> (result: String)
        ensures
            result@ == error_text(self@),
    {
        match self {
            Error::Io(error) => error.message.clone(),
            Error::Config(message) => "invalid configuration: ".to_string().concat(
                message.as_str(),
            ),
            Error::Invalid(message) => message.clone(),
            Error::Conflict(target) => "refusing to replace conflicting path ".to_string().concat(
                target.display().as_str(),
            ).concat(" (use --force)"),
            Error::CommandFailed { program, code } => {
                let result = (*program).to_string().concat(" failed with exit status ");
                match code {
                    Some(code) => result.concat(text::show_number(*code).as_str()),
                    None => result.concat("unknown"),
                }
            },
        }
    }
}

} // verus!
