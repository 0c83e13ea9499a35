use vstd::prelude::*;
use vstd::string::{to_string_from_display_ensures, StringExecFns};

verus! {

/// What went wrong, in the classification the daemon and its clients share.
#[derive(Debug, Clone, PartialEq, Eq)]
pub enum ErrorKind {
    /// The socket path could not be bound.
    Bind,
    /// A connection sent more than the maximum frame size without a sentinel.
    FrameTooLarge,
    /// A frame does not decode to a request.
    Malformed,
    /// A `Show` request named a color profile that is not configured.
    UnknownProfile(String),
    /// A `Show` request carried a value outside `[0, 100]`.
    OutOfRange,
    /// A read, write or accept on a socket failed.
    Io,
    /// Any other failure, described in words only.
    Other,
}

/// An error: its kind, where it happened, and a description.
#[derive(Debug, Clone)]
pub struct Error {
    pub kind: ErrorKind,
    pub context: String,
    pub description: String,
}

pub type Result<T> = core::result::Result<T, Error>;

impl Error {
    /// An I/O error raised by `error` while doing what `context` says; the
    /// description is what `error` displays.
    pub fn new<U: core::fmt::Display>(context: &str, error: &U) -> (r: Error)
        ensures
            r.kind == ErrorKind::Io,
            r.context@ == context@,
            to_string_from_display_ensures::<U>(error, r.description),
    {
        Error { kind: ErrorKind::Io, context: String::from_str(context), description: error.to_string() }
    }

    /// An error described in words only.
    pub fn from_description(context: &str, description: &str) -> (r: Error)
        ensures
            r.kind == ErrorKind::Other,
            r.context@ == context@,
            r.description@ == description@,
    {
        Error {
            kind: ErrorKind::Other,
            context: String::from_str(context),
            description: String::from_str(description),
        }
    }

    /// A connection sent a frame over the maximum size.
    pub fn frame_too_large() -> (r: Error)
        ensures
            r.kind == ErrorKind::FrameTooLarge,
            r.context@ == "reading from socket"@,
            r.description@ == "request body exceeded max request size"@,
    {
        Error {
            kind: ErrorKind::FrameTooLarge,
            context: String::from_str("reading from socket"),
            description: String::from_str("request body exceeded max request size"),
        }
    }

    /// A frame that decodes to no request.
    pub fn malformed() -> (r: Error)
        ensures
            r.kind == ErrorKind::Malformed,
            r.context@ == "deserializing request"@,
            r.description@ == "payload does not encode a request"@,
    {
        Error {
            kind: ErrorKind::Malformed,
            context: String::from_str("deserializing request"),
            description: String::from_str("payload does not encode a request"),
        }
    }

    /// A `Show` request for profile `name`, which is not configured.
    pub fn unknown_profile(name: &String) -> (r: Error)
        ensures
            r.kind == ErrorKind::UnknownProfile(*name),
            r.context@ == "processing request"@,
            r.description@ == "Color profile `"@ + name@ + "` not found."@,
    {
        let mut description = String::from_str("Color profile `");
        description.append(name.as_str());
        description.append("` not found.");
        Error {
            kind: ErrorKind::UnknownProfile(name.clone()),
            context: String::from_str("processing request"),
            description,
        }
    }

    /// A `Show` request whose value lies outside `[0, 100]`.
    pub fn out_of_range() -> (r: Error)
        ensures
            r.kind == ErrorKind::OutOfRange,
            r.context@ == "processing request"@,
            r.description@ == "Expected `value` in [0, 100]."@,
    {
        Error {
            kind: ErrorKind::OutOfRange,
            context: String::from_str("processing request"),
            description: String::from_str("Expected `value` in [0, 100]."),
        }
    }

    /// The error as one line of text: `Error in <context> - <description>`.
    pub fn message(&self) -> (r: String)
        ensures
            r@ == "Error in "@ + self.context@ + " - "@ + self.description@,
    {
        let mut text = String::from_str("Error in ");
        text.append(self.context.as_str());
        text.append(" - ");
        text.append(self.description.as_str());
        text
    }
}

} // verus!
