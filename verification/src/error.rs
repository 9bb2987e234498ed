//! Error taxonomy of the engine core.  Every variant carries enough to
//! render a human-readable detail line; `message` is that rendering,
//! pinned exactly by `spec_message`.

use vstd::prelude::*;

use crate::text::append_str;
use crate::text::append_u64;
use crate::text::dec_digits;
use crate::text::string_from_chars;

verus! {

/// What can go wrong between a caller and the supervised engine.
#[derive(Debug)]
pub enum KatagoError {
    /// Spawning the engine child failed; carries the system message.
    ProcessStartFailed(String),
    /// The engine is not currently usable; callers should retry later.
    ProcessDied,
    /// The per-request deadline (in seconds) elapsed before a response.
    Timeout(u64),
    /// A response line failed structural decoding; carries the detail.
    ParseError(String),
    /// A stream error; carries the system message.
    IoError(String),
    /// A malformed command was submitted; carries the command.
    InvalidCommand(String),
    /// The engine answered with an error field; carries it verbatim.
    ResponseError(String),
    /// A caller-supplied correlation id collides with an outstanding or
    /// reserved id.
    DuplicateId(String),
}

impl KatagoError {
    /// The human-readable rendering of this error.
    pub open spec fn spec_message(&self) -> Seq<char> {
        match self {
            KatagoError::ProcessStartFailed(s) => "Failed to start KataGo process: "@ + s@,
            KatagoError::ProcessDied => "KataGo process died unexpectedly"@,
            KatagoError::Timeout(secs) => "Command timeout after "@ + dec_digits(*secs as nat)
                + " seconds"@,
            KatagoError::ParseError(s) => "Failed to parse KataGo response: "@ + s@,
            KatagoError::IoError(s) => "IO error: "@ + s@,
            KatagoError::InvalidCommand(s) => "Invalid GTP command: "@ + s@,
            KatagoError::ResponseError(s) => "KataGo returned error: "@ + s@,
            KatagoError::DuplicateId(s) => "Duplicate request id: "@ + s@,
        }
    }

    /// Renders the human-readable detail line for this error.
    pub fn message(&self) -> (m: String)
        ensures
            m@ == self.spec_message(),
    {
        let mut out: Vec<char> = Vec::new();
        match self {
            KatagoError::ProcessStartFailed(s) => {
                append_str(&mut out, "Failed to start KataGo process: ");
                append_str(&mut out, s.as_str());
            },
            KatagoError::ProcessDied => {
                append_str(&mut out, "KataGo process died unexpectedly");
            },
            KatagoError::Timeout(secs) => {
                append_str(&mut out, "Command timeout after ");
                append_u64(&mut out, *secs);
                append_str(&mut out, " seconds");
            },
            KatagoError::ParseError(s) => {
                append_str(&mut out, "Failed to parse KataGo response: ");
                append_str(&mut out, s.as_str());
            },
            KatagoError::IoError(s) => {
                append_str(&mut out, "IO error: ");
                append_str(&mut out, s.as_str());
            },
            KatagoError::InvalidCommand(s) => {
                append_str(&mut out, "Invalid GTP command: ");
                append_str(&mut out, s.as_str());
            },
            KatagoError::ResponseError(s) => {
                append_str(&mut out, "KataGo returned error: ");
                append_str(&mut out, s.as_str());
            },
            KatagoError::DuplicateId(s) => {
                append_str(&mut out, "Duplicate request id: ");
                append_str(&mut out, s.as_str());
            },
        }
        string_from_chars(&out)
    }
}

} // verus!
