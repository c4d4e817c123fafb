//! Errors a command can end in.

use vstd::prelude::*;

use crate::parser::ParseError;
use crate::text::{push_str, string_of};

verus! {

#[verifier::external_type_specification]
#[verifier::external_body]
pub struct ExSerdeJsonError(serde_json::Error);

/// Errors a command can end in.
#[derive(Debug)]
pub enum CommandError {
    /// The underlying adb transport failed (no device, connection dropped, etc).
    Transport(String),
    /// The command ran but its output failed to parse.
    Parse(ParseError),
    /// A required argument was missing or malformed.
    InvalidArgument(String),
    /// A mutating command was requested but execution is in read-only mode.
    ReadOnlyViolation(String),
    /// Serialization of a typed output to JSON failed.
    Serialize(serde_json::Error),
}

pub type CommandResult<T> = Result<T, CommandError>;

/// What `{:?}` prints for a string: the text quoted, with escapes.
pub uninterp spec fn debug_text(s: Seq<char>) -> Seq<char>;

/// `<str as Debug>::fmt`: the string in double quotes with its special
/// characters escaped. The result is named, not spelled out.
#[verifier::external_body]
fn debug_quoted(s: &str) -> (r: String)
    ensures
        r@ == debug_text(s@),
{
    format!("{s:?}")
}

/// `<serde_json::Error as Display>::fmt`. Nothing is claimed of the text.
#[verifier::external_body]
fn serde_error_text(e: &serde_json::Error) -> (r: String) {
    e.to_string()
}

/// The message of a parse error.
pub open spec fn parse_error_text(e: ParseError) -> Seq<char> {
    match e {
        ParseError::MissingField(f) => "missing expected field: "@ + f@,
        ParseError::InvalidValue { field, value } => "failed to parse value for `"@ + field@
            + "`: "@ + debug_text(value@),
        ParseError::UnexpectedFormat(m) => "unexpected output format: "@ + m@,
        ParseError::Empty => "empty input"@,
    }
}

impl ParseError {
    /// The human-readable message of this error.
    pub fn message(&self) -> (r: String)
        ensures
            r@ == parse_error_text(*self),
    {
        let mut out: Vec<char> = Vec::new();
        match self {
            ParseError::MissingField(f) => {
                push_str(&mut out, "missing expected field: ");
                push_str(&mut out, f);
            },
            ParseError::InvalidValue { field, value } => {
                push_str(&mut out, "failed to parse value for `");
                push_str(&mut out, field);
                push_str(&mut out, "`: ");
                let q = debug_quoted(value.as_str());
                push_str(&mut out, q.as_str());
            },
            ParseError::UnexpectedFormat(m) => {
                push_str(&mut out, "unexpected output format: ");
                push_str(&mut out, m.as_str());
            },
            ParseError::Empty => {
                push_str(&mut out, "empty input");
            },
        }
        assert(out@ =~= parse_error_text(*self)) by {
            match self {
                ParseError::InvalidValue { field, value } => {
                    assert(out@ =~= "failed to parse value for `"@ + field@ + "`: "@ + debug_text(
                        value@,
                    ));
                },
                _ => {},
            }
        }
        string_of(out.as_slice())
    }
}

/// The message of a command error; `None` for a serialization error, whose
/// text comes from `serde_json`.
pub open spec fn command_error_text(e: CommandError) -> Option<Seq<char>> {
    match e {
        CommandError::Transport(m) => Some("transport error: "@ + m@),
        CommandError::Parse(p) => Some("parse error: "@ + parse_error_text(p)),
        CommandError::InvalidArgument(m) => Some("invalid argument: "@ + m@),
        CommandError::ReadOnlyViolation(id) => Some(
            "command `"@ + id@ + "` is mutating and read-only mode is enabled"@,
        ),
        CommandError::Serialize(_) => None,
    }
}

impl CommandError {
    /// The human-readable message of this error.
    pub fn message(&self) -> (r: String)
        ensures
            match command_error_text(*self) {
                Some(t) => r@ == t,
                None => r@.len() >= 21 && r@.take(21) == "serialization error: "@,
            },
    {
        let mut out: Vec<char> = Vec::new();
        match self {
            CommandError::Transport(m) => {
                push_str(&mut out, "transport error: ");
                push_str(&mut out, m.as_str());
            },
            CommandError::Parse(p) => {
                push_str(&mut out, "parse error: ");
                let t = p.message();
                push_str(&mut out, t.as_str());
            },
            CommandError::InvalidArgument(m) => {
                push_str(&mut out, "invalid argument: ");
                push_str(&mut out, m.as_str());
            },
            CommandError::ReadOnlyViolation(id) => {
                push_str(&mut out, "command `");
                push_str(&mut out, id.as_str());
                push_str(&mut out, "` is mutating and read-only mode is enabled");
            },
            CommandError::Serialize(e) => {
                push_str(&mut out, "serialization error: ");
                proof {
                    reveal_strlit("serialization error: ");
                }
                let ghost prefix = out@;
                let t = serde_error_text(e);
                push_str(&mut out, t.as_str());
                assert(out@.take(21) =~= prefix);
            },
        }
        string_of(out.as_slice())
    }
}

impl From<ParseError> for CommandError {
    fn from(e: ParseError) -> (r: CommandError)
        ensures
            r == CommandError::Parse(e),
    {
        CommandError::Parse(e)
    }
}

impl vstd::std_specs::convert::FromSpecImpl<ParseError> for CommandError {
    open spec fn obeys_from_spec() -> bool {
        true
    }

    open spec fn from_spec(e: ParseError) -> CommandError {
        CommandError::Parse(e)
    }
}

impl From<serde_json::Error> for CommandError {
    fn from(e: serde_json::Error) -> (r: CommandError)
        ensures
            r == CommandError::Serialize(e),
    {
        CommandError::Serialize(e)
    }
}

impl vstd::std_specs::convert::FromSpecImpl<serde_json::Error> for CommandError {
    open spec fn obeys_from_spec() -> bool {
        true
    }

    open spec fn from_spec(e: serde_json::Error) -> CommandError {
        CommandError::Serialize(e)
    }
}

} // verus!
