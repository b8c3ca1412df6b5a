//! Which backend serves a call, and what a call of the remote backend sends.

use vstd::prelude::*;
use vstd::string::*;
use vstd::utf8::*;

use crate::history::LocalHistoryNotesResult;
use crate::history::LocalResultView;
use crate::json::json_parsed;
use crate::json::json_size;
use crate::json::parse_record;
use crate::json::serialized_len;
use crate::json::value_holds;
use crate::json::with_field;
use crate::json::Json;
use crate::json::JsonView;
use crate::limits::MAX_HISTORY_RESULT_BYTES;
use crate::text::same_text;

verus! {

/// Seconds after which a call of the remote backend is given up.
pub const HISTORY_NOTES_BACKEND_TIMEOUT_SECONDS: u64 = 35;

/// A header value of `http`.
#[verifier::external_type_specification]
#[verifier::external_body]
pub struct ExHeaderValue(http::HeaderValue);

/// The bytes of a header value.
pub uninterp spec fn header_holds(value: http::HeaderValue) -> Seq<u8>;

/// A character that may stand in a header value: no control character but the tab.
pub open spec fn header_char(c: char) -> bool {
    (c as u32 >= 32 && c as u32 != 127) || c == '\t'
}

/// A text that may be a header value.
pub open spec fn header_text(text: Seq<char>) -> bool {
    forall|i: int| 0 <= i < text.len() ==> header_char(#[trigger] text[i])
}

/// A text of visible ASCII characters and tabs.
pub open spec fn visible_text(text: Seq<char>) -> bool {
    forall|i: int|
        0 <= i < text.len() ==> 32 <= (#[trigger] text[i]) as u32 && (text[i] as u32) < 127 || text[i] == '\t'
}

/// `http::HeaderValue::from_str` takes a text without control characters but the tab, and keeps its
/// bytes; it refuses any other text.
#[verifier::external_body]
fn header_value(text: &str) -> (value: Option<http::HeaderValue>)
    ensures
        match value {
            Some(value) => header_text(text@) && header_holds(value) == encode_utf8(text@),
            None => !header_text(text@),
        },
{
    http::HeaderValue::from_str(text).ok()
}

/// `http::HeaderValue::from_static` keeps the bytes of a text of visible ASCII characters and tabs. It
/// panics on any other text, which `requires` leaves out.
#[verifier::external_body]
fn static_header_value(text: &'static str) -> (value: http::HeaderValue)
    requires
        visible_text(text@),
    ensures
        header_holds(value) == encode_utf8(text@),
{
    http::HeaderValue::from_static(text)
}

/// Which store serves the calls.
#[derive(Clone, Copy, Debug, PartialEq, Eq, Structural)]
pub enum BackendKind {
    Codex,
    Local,
}

/// The backend of the history and note tools.
#[derive(Clone, Copy, Debug, PartialEq, Eq, Structural)]
pub struct HistoryNotesBackend {
    pub kind: BackendKind,
}

/// What a call is served by.
#[derive(Clone, Copy, Debug, PartialEq, Eq, Structural)]
pub enum Route {
    /// The hint that the thread's notes give.
    ThreadHint,
    /// The thread's own history and notes.
    Local,
    /// The remote backend.
    Remote,
}

/// What a call is served by, or why it is refused.
pub open spec fn route_of(kind: BackendKind, path: Seq<char>, arguments: JsonView) -> Result<Route, Seq<char>> {
    if !(arguments is Object) {
        Err("History tool arguments must be a JSON object"@)
    } else {
        match kind {
            BackendKind::Codex => Ok(Route::Remote),
            BackendKind::Local => if path == "alpha/notes/v2/thread_hint"@ {
                Ok(Route::ThreadHint)
            } else {
                Ok(Route::Local)
            },
        }
    }
}

/// What an outcome with a route holds.
pub open spec fn route_outcome(outcome: Result<Route, String>) -> Result<Route, Seq<char>> {
    match outcome {
        Ok(route) => Ok(route),
        Err(error) => Err(error@),
    }
}

/// A local result that may be handed on: JSON within the limit, or encrypted parts.
pub open spec fn bounded_result(result: LocalResultView) -> Result<LocalResultView, Seq<char>> {
    match result {
        LocalResultView::Json(value) => if json_size(value) > MAX_HISTORY_RESULT_BYTES {
            Err("Local context result exceeds the output limit; request a smaller range."@)
        } else {
            Ok(result)
        },
        LocalResultView::AgentMessageReplay(_) => Ok(result),
    }
}

/// What an outcome with a local result holds.
pub open spec fn local_outcome(outcome: Result<LocalHistoryNotesResult, String>) -> Result<
    LocalResultView,
    Seq<char>,
> {
    match outcome {
        Ok(result) => Ok(result@),
        Err(error) => Err(error@),
    }
}

impl HistoryNotesBackend {
    /// The remote backend.
    pub fn new() -> (backend: HistoryNotesBackend)
        ensures
            backend.kind == BackendKind::Codex,
    {
        HistoryNotesBackend { kind: BackendKind::Codex }
    }

    /// The thread's own history and notes.
    pub fn local() -> (backend: HistoryNotesBackend)
        ensures
            backend.kind == BackendKind::Local,
    {
        HistoryNotesBackend { kind: BackendKind::Local }
    }

    /// Whether calls are served locally.
    pub fn is_local(&self) -> (local: bool)
        ensures
            local == (self.kind == BackendKind::Local),
    {
        match self.kind {
            BackendKind::Local => true,
            BackendKind::Codex => false,
        }
    }

    /// What a call is served by.
    pub fn route(&self, path: &str, arguments: &Json) -> (outcome: Result<Route, String>)
        ensures
            route_outcome(outcome) == route_of(self.kind, path@, arguments@),
    {
        if !arguments.is_object() {
            return Err("History tool arguments must be a JSON object".to_owned());
        }
        match self.kind {
            BackendKind::Codex => Ok(Route::Remote),
            BackendKind::Local => {
                if same_text(path, "alpha/notes/v2/thread_hint") {
                    Ok(Route::ThreadHint)
                } else {
                    Ok(Route::Local)
                }
            },
        }
    }
}

/// Hands a local result on, unless it is too large.
pub fn bound_local(result: LocalHistoryNotesResult) -> (outcome: Result<LocalHistoryNotesResult, String>)
    ensures
        local_outcome(outcome) == bounded_result(result@),
{
    if let LocalHistoryNotesResult::Json(value) = &result {
        if serialized_len(value) > MAX_HISTORY_RESULT_BYTES {
            return Err(
                "Local context result exceeds the output limit; request a smaller range.".to_owned(),
            );
        }
    }
    Ok(result)
}

/// No JSON that a local call hands on is larger than the limit on results.
pub proof fn law_local_results_are_bounded(result: LocalResultView)
    ensures
        bounded_result(result) matches Ok(handed) ==> handed == result && (handed matches LocalResultView::Json(
            value,
        ) ==> json_size(value) <= MAX_HISTORY_RESULT_BYTES),
{
}

/// Why a call of the remote backend failed.
#[derive(Clone, Copy, Debug, PartialEq, Eq, Structural)]
pub enum OperationFailure {
    Provider,
    Authentication,
    PolicyEncoding,
    PolicyHeader,
    ApplyAuthentication,
    Request,
    InvalidJson,
}

/// What is said of a failed call.
pub open spec fn failure_text(failure: OperationFailure) -> Seq<char> {
    "Unable to perform operation:"@ + (match failure {
        OperationFailure::Provider => " Could not resolve the backend provider."@,
        OperationFailure::Authentication => " Could not resolve backend authentication."@,
        OperationFailure::PolicyEncoding => " Could not encode the output truncation policy."@,
        OperationFailure::PolicyHeader => " Could not construct the output truncation policy header."@,
        OperationFailure::ApplyAuthentication => " Could not apply backend authentication."@,
        OperationFailure::Request => " The backend request failed."@,
        OperationFailure::InvalidJson => " The backend returned invalid JSON."@,
    })
}

/// What is said of a failed call.
pub fn operation_error(failure: OperationFailure) -> (text: String)
    ensures
        text@ == failure_text(failure),
{
    let mut text = "Unable to perform operation:".to_owned();
    match failure {
        OperationFailure::Provider => text.append(" Could not resolve the backend provider."),
        OperationFailure::Authentication => text.append(" Could not resolve backend authentication."),
        OperationFailure::PolicyEncoding => text.append(
            " Could not encode the output truncation policy.",
        ),
        OperationFailure::PolicyHeader => text.append(
            " Could not construct the output truncation policy header.",
        ),
        OperationFailure::ApplyAuthentication => text.append(" Could not apply backend authentication."),
        OperationFailure::Request => text.append(" The backend request failed."),
        OperationFailure::InvalidJson => text.append(" The backend returned invalid JSON."),
    }
    text
}

/// What a call of the remote backend sends: JSON, by POST, to a path, with headers and a timeout.
#[derive(Debug)]
pub struct CodexRequest {
    pub path: String,
    pub headers: Vec<(String, http::HeaderValue)>,
    pub body: Json,
    pub timeout_seconds: u64,
}

/// What a `CodexRequest` holds.
#[verifier::ext_equal]
pub struct CodexRequestView {
    pub path: Seq<char>,
    pub headers: Seq<(Seq<char>, Seq<u8>)>,
    pub body: JsonView,
    pub timeout_seconds: u64,
}

/// What a row of headers holds.
pub open spec fn headers_view(headers: Seq<(String, http::HeaderValue)>) -> Seq<(Seq<char>, Seq<u8>)> {
    headers.map_values(|header: (String, http::HeaderValue)| (header.0@, header_holds(header.1)))
}

impl View for CodexRequest {
    type V = CodexRequestView;

    open spec fn view(&self) -> CodexRequestView {
        CodexRequestView {
            path: self.path@,
            headers: headers_view(self.headers@),
            body: self.body@,
            timeout_seconds: self.timeout_seconds,
        }
    }
}

/// What an outcome with a request holds.
pub open spec fn request_outcome(outcome: Result<CodexRequest, String>) -> Result<CodexRequestView, Seq<char>> {
    match outcome {
        Ok(request) => Ok(request@),
        Err(error) => Err(error@),
    }
}

/// The operation's arguments carry text that is encrypted on the way.
pub open spec fn encrypts_arguments(path: Seq<char>) -> bool {
    ||| path == "alpha/history/v2/search_contents"@
    ||| path == "alpha/notes/v2/search_contents"@
    ||| path == "alpha/notes/v2/append_to_file"@
    ||| path == "alpha/notes/v2/write_file"@
}

/// Whose call it is.
pub open spec fn call_context(session_id: Seq<char>, current_agent_name: Seq<char>) -> JsonView {
    JsonView::Object(
        map![
            "session_id"@ => JsonView::Text(session_id),
            "current_agent_name"@ => JsonView::Text(current_agent_name),
        ],
    )
}

/// The headers of a call.
pub open spec fn call_headers(path: Seq<char>, policy: Seq<char>) -> Seq<(Seq<char>, Seq<u8>)> {
    let first = seq![("x-openai-tool-output-truncation-policy"@, encode_utf8(policy))];
    if encrypts_arguments(path) {
        first.push(("x-openai-encrypted-tool-arguments"@, encode_utf8("true"@)))
    } else {
        first
    }
}

/// What a call of the remote backend sends, given the text of its truncation policy, if that has one.
pub open spec fn remote_request(
    path: Seq<char>,
    session_id: Seq<char>,
    current_agent_name: Seq<char>,
    arguments: JsonView,
    policy: Option<Seq<char>>,
) -> Result<CodexRequestView, Seq<char>> {
    if !(arguments is Object) {
        Err("History tool arguments must be a JSON object"@)
    } else {
        match policy {
            None => Err(failure_text(OperationFailure::PolicyEncoding)),
            Some(policy) => if !header_text(policy) {
                Err(failure_text(OperationFailure::PolicyHeader))
            } else {
                Ok(
                    CodexRequestView {
                        path,
                        headers: call_headers(path, policy),
                        body: with_field(arguments, "context"@, call_context(session_id, current_agent_name)),
                        timeout_seconds: HISTORY_NOTES_BACKEND_TIMEOUT_SECONDS,
                    },
                )
            },
        }
    }
}

/// What a call of the remote backend sends. `policy` is the JSON text of the truncation policy, none
/// where it could not be encoded.
pub fn codex_request(
    path: &str,
    session_id: &str,
    current_agent_name: &str,
    arguments: Json,
    policy: Option<String>,
) -> (outcome: Result<CodexRequest, String>)
    ensures
        request_outcome(outcome) == remote_request(
            path@,
            session_id@,
            current_agent_name@,
            arguments@,
            crate::text::opt_view(policy),
        ),
{
    if !arguments.is_object() {
        return Err("History tool arguments must be a JSON object".to_owned());
    }
    let policy = match policy {
        Some(policy) => policy,
        None => {
            return Err(operation_error(OperationFailure::PolicyEncoding));
        },
    };
    let value = match header_value(policy.as_str()) {
        Some(value) => value,
        None => {
            return Err(operation_error(OperationFailure::PolicyHeader));
        },
    };
    let mut context = Json::object();
    context.set("session_id", Json::text(session_id));
    context.set("current_agent_name", Json::text(current_agent_name));
    let mut body = arguments;
    body.set("context", context);
    let mut headers: Vec<(String, http::HeaderValue)> = Vec::new();
    headers.push(("x-openai-tool-output-truncation-policy".to_owned(), value));
    if same_text(path, "alpha/history/v2/search_contents") || same_text(path, "alpha/notes/v2/search_contents")
        || same_text(path, "alpha/notes/v2/append_to_file") || same_text(path, "alpha/notes/v2/write_file") {
        proof {
            reveal_strlit("true");
        }
        let flag = static_header_value("true");
        headers.push(("x-openai-encrypted-tool-arguments".to_owned(), flag));
    }
    assert(headers_view(headers@) =~= call_headers(path@, policy@));
    Ok(
        CodexRequest {
            path: path.to_owned(),
            headers,
            body,
            timeout_seconds: HISTORY_NOTES_BACKEND_TIMEOUT_SECONDS,
        },
    )
}

/// The backend's reply, as far as it is JSON.
pub fn parse_response(body: &[u8]) -> (outcome: Result<serde_json::Value, String>)
    ensures
        match json_parsed(body@) {
            Ok(value) => outcome matches Ok(reply) && value_holds(reply) == value,
            Err(_) => outcome matches Err(error) && error@ == failure_text(OperationFailure::InvalidJson),
        },
{
    match parse_record(body) {
        Ok(reply) => Ok(reply),
        Err(_) => Err(operation_error(OperationFailure::InvalidJson)),
    }
}

} // verus!
