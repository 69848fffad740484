//! What can go wrong, and how it is told.

use vstd::prelude::*;
use vstd::string::*;

use crate::number::{decimal_text, u64_text};

verus! {

/// A command that failed.
#[derive(Debug)]
pub enum TomcatError {
    /// No profile is saved under that name.
    ProfileNotFound(String),
    /// The profiles file cannot be written.
    ProfilesNotWritten,
    /// The server at this address cannot be reached.
    ConnectionFailed(String),
    /// The server answered with a status other than success.
    Http { status: String, body: String },
    /// The manager refused the request.
    Refused(String),
    /// A deployment names neither a file nor a URL.
    NoWarSource,
    /// The file to deploy cannot be read.
    UnreadableFile(String),
    /// An application did not come up in time.
    WaitTimeout { path: String, timeout: u64 },
    /// An idle time is not a number of minutes.
    InvalidIdle { value: String, line: String },
    /// The list of paths and idle times cannot be read.
    StdinUnreadable,
}

/// The contents of a `TomcatError`.
pub enum TomcatErrorView {
    ProfileNotFound(Seq<char>),
    ProfilesNotWritten,
    ConnectionFailed(Seq<char>),
    Http { status: Seq<char>, body: Seq<char> },
    Refused(Seq<char>),
    NoWarSource,
    UnreadableFile(Seq<char>),
    WaitTimeout { path: Seq<char>, timeout: u64 },
    InvalidIdle { value: Seq<char>, line: Seq<char> },
    StdinUnreadable,
}

impl View for TomcatError {
    type V = TomcatErrorView;

    open spec fn view(&self) -> TomcatErrorView {
        match self {
            TomcatError::ProfileNotFound(name) => TomcatErrorView::ProfileNotFound(name@),
            TomcatError::ProfilesNotWritten => TomcatErrorView::ProfilesNotWritten,
            TomcatError::ConnectionFailed(url) => TomcatErrorView::ConnectionFailed(url@),
            TomcatError::Http { status, body } => TomcatErrorView::Http {
                status: status@,
                body: body@,
            },
            TomcatError::Refused(reason) => TomcatErrorView::Refused(reason@),
            TomcatError::NoWarSource => TomcatErrorView::NoWarSource,
            TomcatError::UnreadableFile(name) => TomcatErrorView::UnreadableFile(name@),
            TomcatError::WaitTimeout { path, timeout } => TomcatErrorView::WaitTimeout {
                path: path@,
                timeout: *timeout,
            },
            TomcatError::InvalidIdle { value, line } => TomcatErrorView::InvalidIdle {
                value: value@,
                line: line@,
            },
            TomcatError::StdinUnreadable => TomcatErrorView::StdinUnreadable,
        }
    }
}

/// The message of an error.
pub open spec fn error_message(e: TomcatErrorView) -> Seq<char> {
    match e {
        TomcatErrorView::ProfileNotFound(name) => "profile '"@ + name + "' not found"@,
        TomcatErrorView::ProfilesNotWritten => "failed to write profiles"@,
        TomcatErrorView::ConnectionFailed(url) => "connection failed: "@ + url,
        TomcatErrorView::Http { status, body } => "HTTP "@ + status + ": "@ + body,
        TomcatErrorView::Refused(reason) => reason,
        TomcatErrorView::NoWarSource => "Provide --file or --war-url"@,
        TomcatErrorView::UnreadableFile(name) => "cannot read "@ + name,
        TomcatErrorView::WaitTimeout { path, timeout } => "timeout: "@ + path
            + " did not reach 'running' in "@ + decimal_text(timeout as nat) + "s"@,
        TomcatErrorView::InvalidIdle { value, line } => "invalid idle value '"@ + value
            + "' on line: "@ + line,
        TomcatErrorView::StdinUnreadable => "stdin read error"@,
    }
}

impl TomcatError {
    /// The message of the error.
    pub fn message(&self) -> (r: String)
        ensures
            r@ == error_message(self@),
            match self {
                TomcatError::ProfileNotFound(name) => r@ == "profile '"@ + name@ + "' not found"@,
                TomcatError::ProfilesNotWritten => r@ == "failed to write profiles"@,
                TomcatError::ConnectionFailed(url) => r@ == "connection failed: "@ + url@,
                TomcatError::Http { status, body } => r@ == "HTTP "@ + status@ + ": "@ + body@,
                TomcatError::Refused(reason) => r@ == reason@,
                TomcatError::NoWarSource => r@ == "Provide --file or --war-url"@,
                TomcatError::UnreadableFile(name) => r@ == "cannot read "@ + name@,
                TomcatError::WaitTimeout { path, timeout } => r@ == "timeout: "@ + path@
                    + " did not reach 'running' in "@ + decimal_text(*timeout as nat) + "s"@,
                TomcatError::InvalidIdle { value, line } => r@ == "invalid idle value '"@ + value@
                    + "' on line: "@ + line@,
                TomcatError::StdinUnreadable => r@ == "stdin read error"@,
            },
    {
        match self {
            TomcatError::ProfileNotFound(name) => {
                let mut out = "profile '".to_owned();
                out.append(name.as_str());
                out.append("' not found");
                out
            },
            TomcatError::ProfilesNotWritten => "failed to write profiles".to_owned(),
            TomcatError::ConnectionFailed(url) => {
                let mut out = "connection failed: ".to_owned();
                out.append(url.as_str());
                out
            },
            TomcatError::Http { status, body } => {
                let mut out = "HTTP ".to_owned();
                out.append(status.as_str());
                out.append(": ");
                out.append(body.as_str());
                out
            },
            TomcatError::Refused(reason) => reason.clone(),
            TomcatError::NoWarSource => "Provide --file or --war-url".to_owned(),
            TomcatError::UnreadableFile(name) => {
                let mut out = "cannot read ".to_owned();
                out.append(name.as_str());
                out
            },
            TomcatError::WaitTimeout { path, timeout } => {
                let mut out = "timeout: ".to_owned();
                out.append(path.as_str());
                out.append(" did not reach 'running' in ");
                out.append(u64_text(*timeout).as_str());
                out.append("s");
                out
            },
            TomcatError::InvalidIdle { value, line } => {
                let mut out = "invalid idle value '".to_owned();
                out.append(value.as_str());
                out.append("' on line: ");
                out.append(line.as_str());
                out
            },
            TomcatError::StdinUnreadable => "stdin read error".to_owned(),
        }
    }
}

} // verus!
