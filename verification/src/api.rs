//! The records and rules of the HTTP boundary, as far as they are the
//! core's: the problem-details error shape and the exact mapping of the
//! engine error taxonomy onto it, and the plain response records for
//! the health, version and cache endpoints.  Serialization and routing
//! stay with the host.

use vstd::prelude::*;

use crate::error::KatagoError;
use crate::text::append_str;
use crate::text::append_u64;
use crate::text::dec_digits;
use crate::text::lower_char;
use crate::text::lower_char_exec;
use crate::text::string_from_chars;

verus! {

/// A move filter of the analysis request: which moves a player may or
/// may not consider, down to a depth.
#[derive(Debug)]
pub struct MoveFilter {
    pub player: String,
    pub moves: Vec<String>,
    pub until_depth: u32,
}

/// A problem-details error body: machine-readable type, human title,
/// HTTP status, detail, and optional instance and request id.
#[derive(Debug)]
pub struct ProblemDetail {
    pub problem_type: String,
    pub title: String,
    pub status: u16,
    pub detail: String,
    pub instance: Option<String>,
    pub request_id: Option<String>,
}

/// An API error carrying its problem-details body.
#[derive(Debug)]
pub struct ApiError {
    pub problem: ProblemDetail,
}

/// One character of a problem-type slug: spaces become hyphens,
/// letters become lowercase.
pub open spec fn slug_char(c: char) -> char {
    if c == ' ' {
        '-'
    } else {
        lower_char(c)
    }
}

/// The slug of a title, character by character.
pub open spec fn slug_seq(s: Seq<char>) -> Seq<char> {
    Seq::new(s.len(), |i: int| slug_char(s[i]))
}

/// The problem-type URI for a title.
pub open spec fn problem_type_of(title: Seq<char>) -> Seq<char> {
    "https://katago-server/problems/"@ + slug_seq(title)
}

fn slug(title: &str) -> (r: String)
    ensures
        r@ == slug_seq(title@),
{
    let n = title.unicode_len();
    let mut out: Vec<char> = Vec::new();
    let mut i: usize = 0;
    while i < n
        invariant
            n == title@.len(),
            i <= n,
            out@ =~= slug_seq(title@).subrange(0, i as int),
        decreases n - i,
    {
        let c = title.get_char(i);
        if c == ' ' {
            out.push('-');
        } else {
            out.push(lower_char_exec(c));
        }
        proof {
            assert(out@ =~= slug_seq(title@).subrange(0, i + 1 as int));
        }
        i = i + 1;
    }
    proof {
        assert(slug_seq(title@).subrange(0, n as int) =~= slug_seq(title@));
    }
    string_from_chars(&out)
}

impl ApiError {
    /// A fresh API error: the problem type is derived from the title
    /// (lowercased, spaces hyphenated) under the server's problem URI
    /// prefix; instance and request id start unset.
    pub fn new(status: u16, title: &str, detail: &str) -> (r: Self)
        ensures
            r.problem.problem_type@ == problem_type_of(title@),
            r.problem.title@ == title@,
            r.problem.status == status,
            r.problem.detail@ == detail@,
            r.problem.instance is None,
            r.problem.request_id is None,
    {
        let s = slug(title);
        let mut out: Vec<char> = Vec::new();
        append_str(&mut out, "https://katago-server/problems/");
        append_str(&mut out, s.as_str());
        let problem_type = string_from_chars(&out);
        ApiError {
            problem: ProblemDetail {
                problem_type,
                title: title.to_owned(),
                status,
                detail: detail.to_owned(),
                instance: Option::None,
                request_id: Option::None,
            },
        }
    }

    /// The same error, tagged with the caller's request id.
    pub fn with_request_id(self, request_id: String) -> (r: Self)
        ensures
            r.problem.problem_type == self.problem.problem_type,
            r.problem.title == self.problem.title,
            r.problem.status == self.problem.status,
            r.problem.detail == self.problem.detail,
            r.problem.instance == self.problem.instance,
            r.problem.request_id == Option::Some(request_id),
    {
        let mut e = self;
        e.problem.request_id = Option::Some(request_id);
        e
    }

    /// The same error, tagged with the instance it occurred on.
    pub fn with_instance(self, instance: String) -> (r: Self)
        ensures
            r.problem.problem_type == self.problem.problem_type,
            r.problem.title == self.problem.title,
            r.problem.status == self.problem.status,
            r.problem.detail == self.problem.detail,
            r.problem.instance == Option::Some(instance),
            r.problem.request_id == self.problem.request_id,
    {
        let mut e = self;
        e.problem.instance = Option::Some(instance);
        e
    }

    /// The HTTP status for each engine error.
    pub open spec fn spec_status(e: &KatagoError) -> int {
        match e {
            KatagoError::Timeout(_) => 504,
            KatagoError::ProcessDied => 503,
            KatagoError::ProcessStartFailed(_) => 503,
            KatagoError::ParseError(_) => 500,
            KatagoError::IoError(_) => 500,
            KatagoError::ResponseError(_) => 500,
            KatagoError::InvalidCommand(_) => 400,
            KatagoError::DuplicateId(_) => 409,
        }
    }

    /// The title for each engine error.
    pub open spec fn spec_title(e: &KatagoError) -> Seq<char> {
        match e {
            KatagoError::Timeout(_) => "Analysis Timeout"@,
            KatagoError::ProcessDied => "Service Unavailable"@,
            KatagoError::ProcessStartFailed(_) => "Service Unavailable"@,
            KatagoError::ParseError(_) => "Parse Error"@,
            KatagoError::IoError(_) => "Internal Error"@,
            KatagoError::ResponseError(_) => "KataGo Error"@,
            KatagoError::InvalidCommand(_) => "Invalid Request"@,
            KatagoError::DuplicateId(_) => "Duplicate Request Id"@,
        }
    }

    /// The detail line for each engine error.
    pub open spec fn spec_detail(e: &KatagoError) -> Seq<char> {
        match e {
            KatagoError::Timeout(secs) => "KataGo analysis timed out after "@ + dec_digits(
                *secs as nat,
            ) + " seconds"@,
            KatagoError::ProcessDied => "KataGo process has died unexpectedly"@,
            KatagoError::ProcessStartFailed(m) => "Failed to start KataGo: "@ + m@,
            KatagoError::ParseError(m) => "Failed to parse KataGo response: "@ + m@,
            KatagoError::IoError(m) => "IO error: "@ + m@,
            KatagoError::ResponseError(m) => "KataGo returned error: "@ + m@,
            KatagoError::InvalidCommand(m) => "Invalid command: "@ + m@,
            KatagoError::DuplicateId(m) => "Duplicate request id: "@ + m@,
        }
    }

    /// Translates an engine error into the problem-details shape, with
    /// the status, title and detail pinned per variant.
    pub fn from_error(e: &KatagoError) -> (r: Self)
        ensures
            r.problem.status == Self::spec_status(e),
            r.problem.title@ == Self::spec_title(e),
            r.problem.detail@ == Self::spec_detail(e),
            r.problem.problem_type@ == problem_type_of(Self::spec_title(e)),
            r.problem.instance is None,
            r.problem.request_id is None,
    {
        match e {
            KatagoError::Timeout(secs) => {
                let mut out: Vec<char> = Vec::new();
                append_str(&mut out, "KataGo analysis timed out after ");
                append_u64(&mut out, *secs);
                append_str(&mut out, " seconds");
                let detail = string_from_chars(&out);
                ApiError::new(504, "Analysis Timeout", detail.as_str())
            },
            KatagoError::ProcessDied => ApiError::new(
                503,
                "Service Unavailable",
                "KataGo process has died unexpectedly",
            ),
            KatagoError::ProcessStartFailed(m) => {
                let mut out: Vec<char> = Vec::new();
                append_str(&mut out, "Failed to start KataGo: ");
                append_str(&mut out, m.as_str());
                let detail = string_from_chars(&out);
                ApiError::new(503, "Service Unavailable", detail.as_str())
            },
            KatagoError::ParseError(m) => {
                let mut out: Vec<char> = Vec::new();
                append_str(&mut out, "Failed to parse KataGo response: ");
                append_str(&mut out, m.as_str());
                let detail = string_from_chars(&out);
                ApiError::new(500, "Parse Error", detail.as_str())
            },
            KatagoError::IoError(m) => {
                let mut out: Vec<char> = Vec::new();
                append_str(&mut out, "IO error: ");
                append_str(&mut out, m.as_str());
                let detail = string_from_chars(&out);
                ApiError::new(500, "Internal Error", detail.as_str())
            },
            KatagoError::ResponseError(m) => {
                let mut out: Vec<char> = Vec::new();
                append_str(&mut out, "KataGo returned error: ");
                append_str(&mut out, m.as_str());
                let detail = string_from_chars(&out);
                ApiError::new(500, "KataGo Error", detail.as_str())
            },
            KatagoError::InvalidCommand(m) => {
                let mut out: Vec<char> = Vec::new();
                append_str(&mut out, "Invalid command: ");
                append_str(&mut out, m.as_str());
                let detail = string_from_chars(&out);
                ApiError::new(400, "Invalid Request", detail.as_str())
            },
            KatagoError::DuplicateId(m) => {
                let mut out: Vec<char> = Vec::new();
                append_str(&mut out, "Duplicate request id: ");
                append_str(&mut out, m.as_str());
                let detail = string_from_chars(&out);
                ApiError::new(409, "Duplicate Request Id", detail.as_str())
            },
        }
    }
}

/// The server half of the version report.
#[derive(Debug)]
pub struct ServerVersion {
    pub name: String,
    pub version: String,
}

/// The engine half of the version report.
#[derive(Debug)]
pub struct KatagoVersion {
    pub version: String,
    pub git_hash: Option<String>,
}

/// The model named in the version report.
#[derive(Debug)]
pub struct ModelInfo {
    pub name: String,
}

/// The full version report.
#[derive(Debug)]
pub struct VersionResponse {
    pub server: ServerVersion,
    pub katago: Option<KatagoVersion>,
    pub model: ModelInfo,
}

/// The body of a cache-clear acknowledgement.
#[derive(Debug)]
pub struct CacheClearResponse {
    pub status: String,
    pub timestamp: String,
}

/// The body of a health report.
#[derive(Debug)]
pub struct HealthResponse {
    pub status: String,
    pub timestamp: Option<String>,
    pub uptime: Option<u64>,
}

/// The file name of a path: what follows the last slash, or the whole
/// path when it has none; `unknown` when that is empty.
pub open spec fn spec_file_name(s: Seq<char>) -> Seq<char> {
    let t = tail_after_slash(s);
    if t.len() == 0 {
        "unknown"@
    } else {
        t
    }
}

/// What follows the last slash of a path, or the whole path.
pub open spec fn tail_after_slash(s: Seq<char>) -> Seq<char>
    decreases s.len(),
{
    if s.len() == 0 {
        s
    } else if s.last() == '/' {
        Seq::empty()
    } else {
        tail_after_slash(s.drop_last()).push(s.last())
    }
}

/// The file name of a model path, for the version report: the path is
/// not disclosed whole.
pub fn model_file_name(path: &str) -> (r: String)
    ensures
        r@ == spec_file_name(path@),
{
    let n = path.unicode_len();
    let mut out: Vec<char> = Vec::new();
    let mut i: usize = 0;
    while i < n
        invariant
            n == path@.len(),
            i <= n,
            out@ =~= tail_after_slash(path@.subrange(0, i as int)),
        decreases n - i,
    {
        let c = path.get_char(i);
        if c == '/' {
            out = Vec::new();
        } else {
            out.push(c);
        }
        proof {
            assert(path@.subrange(0, i + 1 as int).drop_last() =~= path@.subrange(0, i as int));
            assert(path@.subrange(0, i + 1 as int).last() == path@[i as int]);
        }
        i = i + 1;
    }
    proof {
        assert(path@.subrange(0, n as int) =~= path@);
    }
    if out.len() == 0 {
        "unknown".to_owned()
    } else {
        string_from_chars(&out)
    }
}

/// Builds the version report: the server is named `katago-server`
/// under the host's package version; the model is shown by file name
/// only.
pub fn build_version_response(
    server_version: String,
    katago: Option<KatagoVersion>,
    model_path: &str,
) -> (r: VersionResponse)
    ensures
        r.server.name@ == "katago-server"@,
        r.server.version == server_version,
        r.katago == katago,
        r.model.name@ == spec_file_name(model_path@),
{
    VersionResponse {
        server: ServerVersion { name: "katago-server".to_owned(), version: server_version },
        katago,
        model: ModelInfo { name: model_file_name(model_path) },
    }
}

/// Builds the health report for the current liveness: `healthy` only
/// while the engine lives.
pub fn health_response(alive: bool, timestamp: String) -> (r: HealthResponse)
    ensures
        alive ==> r.status@ == "healthy"@,
        !alive ==> r.status@ == "unhealthy"@,
        r.timestamp == Option::Some(timestamp),
        r.uptime is None,
{
    HealthResponse {
        status: if alive {
            "healthy".to_owned()
        } else {
            "unhealthy".to_owned()
        },
        timestamp: Option::Some(timestamp),
        uptime: Option::None,
    }
}

/// Builds the cache-clear acknowledgement.
pub fn cache_clear_response(timestamp: String) -> (r: CacheClearResponse)
    ensures
        r.status@ == "cleared"@,
        r.timestamp == timestamp,
{
    CacheClearResponse { status: "cleared".to_owned(), timestamp }
}

} // verus!
