//! What becomes of a call and of its result, stated over its arguments and what is handed on.

use vstd::prelude::*;
use vstd::utf8::*;

use crate::backend::bounded_result;
use crate::backend::failure_text;
use crate::backend::remote_request;
use crate::backend::route_of;
use crate::backend::BackendKind;
use crate::backend::OperationFailure;
use crate::backend::Route;
use crate::history::items_request;
use crate::history::items_to_list;
use crate::history::law_item_pages_tile;
use crate::history::law_window_pages_tile;
use crate::history::read_answer;
use crate::history::read_request;
use crate::history::search_request;
use crate::history::windows_request;
use crate::history::windows_to_list;
use crate::history::LocalResultView;
use crate::history::ScanFailure;
use crate::json::field_of;
use crate::json::fields_in;
use crate::json::items_in;
use crate::json::json_size;
use crate::json::json_text;
use crate::json::text_field;
use crate::json::JsonView;
use crate::local::endpoint_named;
use crate::local::history_answer;
use crate::local::planned;
use crate::local::refusal;
use crate::local::Endpoint;
use crate::local::HistoryRequest;
use crate::local::LocalHistoryNotesStore;
use crate::local::LocalPlan;
use crate::notes::list_request;
use crate::notes::note_search_request;
use crate::privacy::is_private;
use crate::privacy::logged;
use crate::privacy::ToolInvocation;
use crate::records::ContextManagementBackend;
use crate::records::OutputBodyView;
use crate::records::OutputItemView;
use crate::scanner::ScanResult;
use crate::text::pieces;
use crate::text::utf8_len;
use crate::tool_output::image_parts;
use crate::tool_output::observed;
use crate::tool_output::tool_output;
use crate::tool_output::ToolOutputView;

verus! {

/// The nine operations have nine names, and nothing else is an operation.
pub proof fn law_endpoint_names(name: Seq<char>)
    ensures
        match endpoint_named(name) {
            Some(Endpoint::ListWindows) => name == "alpha/history/v2/list_windows"@,
            Some(Endpoint::ListItems) => name == "alpha/history/v2/list_items"@,
            Some(Endpoint::ReadItem) => name == "alpha/history/v2/read_item"@,
            Some(Endpoint::SearchHistory) => name == "alpha/history/v2/search_contents"@,
            Some(Endpoint::ListFiles) => name == "alpha/notes/v2/list_files_by_prefix"@,
            Some(Endpoint::ReadFile) => name == "alpha/notes/v2/read_file"@,
            Some(Endpoint::SearchNotes) => name == "alpha/notes/v2/search_contents"@,
            Some(Endpoint::AppendFile) => name == "alpha/notes/v2/append_to_file"@,
            Some(Endpoint::WriteFile) => name == "alpha/notes/v2/write_file"@,
            None => {
                &&& name != "alpha/history/v2/list_windows"@
                &&& name != "alpha/history/v2/list_items"@
                &&& name != "alpha/history/v2/read_item"@
                &&& name != "alpha/history/v2/search_contents"@
                &&& name != "alpha/notes/v2/list_files_by_prefix"@
                &&& name != "alpha/notes/v2/read_file"@
                &&& name != "alpha/notes/v2/search_contents"@
                &&& name != "alpha/notes/v2/append_to_file"@
                &&& name != "alpha/notes/v2/write_file"@
            },
        },
{
}

/// A call is refused exactly where its arguments take more than 4,000 bytes, where it is to change a note by
/// more than 3,000 bytes, or where it names another agent than the thread's own.
pub proof fn law_refused_calls(store: LocalHistoryNotesStore, name: Seq<char>, arguments: JsonView)
    ensures
        refusal(store, name, arguments) is Some <==> {
            ||| json_size(arguments) > 4_000
            ||| (name == "alpha/notes/v2/write_file"@ || name == "alpha/notes/v2/append_to_file"@) && (
            field_of(arguments, "text"@) matches Some(JsonView::Text(text)) && utf8_len(text) > 3_000)
            ||| (field_of(arguments, "agent_name"@) matches Some(agent) && agent != JsonView::Null && agent
                != JsonView::Text(store.current_agent_name@))
        },
        refusal(store, name, arguments) matches Some(answer) ==> match text_field(answer, "status"@) {
            Some(status) => status == (if json_size(arguments) <= 4_000 && text_field(answer, "field"@) is None {
                "unavailable"@
            } else {
                "invalid_argument"@
            }),
            None => false,
        },
        refusal(store, name, arguments) matches Some(answer) ==> (text_field(answer, "reason"@) == Some(
            "cross_thread_history_is_not_available"@,
        ) ==> (field_of(answer, "scope"@) matches Some(scope) && text_field(scope, "thread_id"@) == Some(
            store.thread_id@,
        ) && text_field(scope, "agent_name"@) == Some(store.current_agent_name@))),
{
    reveal_strlit("status");
    reveal_strlit("reason");
    reveal_strlit("field");
    reveal_strlit("scope");
    reveal_strlit("thread_id");
    reveal_strlit("agent_name");
    assert("status"@.len() == 6 && "reason"@.len() == 6 && "field"@.len() == 5 && "scope"@.len() == 5
        && "thread_id"@.len() == 9 && "agent_name"@.len() == 10);
    assert("status"@[0] == 's' && "reason"@[0] == 'r' && "field"@[0] == 'f' && "scope"@[0] == 's');
    reveal_strlit("cross_thread_history_is_not_available");
    reveal_strlit("local call JSON exceeds 4000 UTF-8 bytes");
    reveal_strlit("local note text exceeds 3000 UTF-8 bytes per call; append smaller chunks");
    assert("cross_thread_history_is_not_available"@[0] == 'c');
    assert("local call JSON exceeds 4000 UTF-8 bytes"@[0] == 'l');
    assert("local note text exceeds 3000 UTF-8 bytes per call; append smaller chunks"@[0] == 'l');
}

/// What an admitted call needs is what its operation is for: listings and searches of the history need a
/// scan, a note is read under the path that was given, and what is written or appended is the text that was
/// given, under the path that was given.
pub proof fn law_plans_do_what_was_asked(plan: LocalPlan, endpoint: Endpoint, arguments: JsonView)
    requires
        planned(plan, endpoint, arguments),
        !(plan is Answer),
    ensures
        match endpoint {
            Endpoint::ListWindows => plan matches LocalPlan::History(HistoryRequest::ListWindows(request))
                && windows_request(arguments) == Ok::<_, JsonView>(request),
            Endpoint::ListItems => plan matches LocalPlan::History(HistoryRequest::ListItems(request))
                && request@.query is None && items_request(arguments, None) == Ok::<_, JsonView>(request@),
            Endpoint::SearchHistory => plan matches LocalPlan::History(HistoryRequest::ListItems(request)) && (
            request@.query matches Some(query) && text_field(arguments, "query"@) == Some(query) && items_request(
                arguments,
                Some(query),
            ) == Ok::<_, JsonView>(request@)),
            Endpoint::ReadItem => plan matches LocalPlan::History(HistoryRequest::ReadItem(request)) && text_field(
                arguments,
                "item_id"@,
            ) == Some(request@.item_id) && read_request(arguments) == Ok::<_, JsonView>(request@),
            Endpoint::ListFiles => plan matches LocalPlan::ListFiles(request) && list_request(
                arguments,
                Ok(request@.prefix),
            ) == Ok::<_, JsonView>(request@) && match request@.prefix {
                Some(prefix) => text_field(arguments, "prefix"@) == Some(prefix) && prefix.len() > 0,
                None => field_of(arguments, "prefix"@) is None || field_of(arguments, "prefix"@) == Some(
                    JsonView::Null,
                ) || (text_field(arguments, "prefix"@) matches Some(prefix) && prefix.len() == 0),
            },
            Endpoint::SearchNotes => plan matches LocalPlan::SearchNotes(request) && note_search_request(
                arguments,
                Ok(request@.prefix),
            ) == Ok::<_, JsonView>(request@) && match request@.prefix {
                Some(prefix) => text_field(arguments, "path_prefix"@) == Some(prefix) && prefix.len() > 0,
                None => field_of(arguments, "path_prefix"@) is None || field_of(arguments, "path_prefix"@) == Some(
                    JsonView::Null,
                ) || (text_field(arguments, "path_prefix"@) matches Some(prefix) && prefix.len() == 0),
            },
            Endpoint::ReadFile => plan matches LocalPlan::ReadFile(path) && text_field(arguments, "path"@) == Some(
                path@,
            ),
            Endpoint::AppendFile => plan matches LocalPlan::AppendFile(request) && text_field(arguments, "path"@)
                == Some(request@.path) && text_field(arguments, "text"@) == Some(request@.text),
            Endpoint::WriteFile => plan matches LocalPlan::WriteFile(request) && text_field(arguments, "path"@)
                == Some(request@.path) && text_field(arguments, "text"@) == Some(request@.text),
        },
{
}

/// A call that was admitted is answered at once only where its arguments are refused, and the answer says so.
pub proof fn law_only_bad_arguments_are_answered_at_once(plan: LocalPlan, endpoint: Endpoint, arguments: JsonView)
    requires
        planned(plan, endpoint, arguments),
        plan is Answer,
    ensures
        text_field(plan->Answer_0@, "status"@) == Some("invalid_argument"@),
        match endpoint {
            Endpoint::ListWindows => windows_request(arguments) is Err,
            Endpoint::ListItems => items_request(arguments, None) is Err,
            Endpoint::SearchHistory => search_request(arguments) is Err,
            Endpoint::ReadItem => read_request(arguments) is Err,
            Endpoint::ListFiles => field_of(arguments, "prefix"@) is None ==> list_request(arguments, Ok(None)) is Err,
            Endpoint::SearchNotes => field_of(arguments, "path_prefix"@) is None ==> note_search_request(
                arguments,
                Ok(None),
            ) is Err,
            Endpoint::ReadFile => text_field(arguments, "path"@) matches Some(path) ==> !plainly_safe(path),
            Endpoint::AppendFile => text_field(arguments, "path"@) matches Some(path) ==> !(plainly_safe(path) && (
            text_field(arguments, "text"@) matches Some(text) && utf8_len(text) <= 1_000_000)),
            Endpoint::WriteFile => text_field(arguments, "path"@) matches Some(path) ==> !(plainly_safe(path) && (
            text_field(arguments, "text"@) matches Some(text) && utf8_len(text) <= 1_000_000)),
        },
{
    reveal_strlit("status");
    reveal_strlit("field");
    reveal_strlit("reason");
    reveal_strlit("path");
    reveal_strlit("max_bytes");
    assert("status"@.len() == 6 && "field"@.len() == 5 && "reason"@.len() == 6 && "path"@.len() == 4
        && "max_bytes"@.len() == 9);
    assert("status"@[0] == 's' && "reason"@[0] == 'r');
}

/// A path that every platform takes: not empty, at most 1,024 bytes in at most 64 names that mean themselves,
/// without a backslash and a zero character, and no colon in the second place.
pub open spec fn plainly_safe(path: Seq<char>) -> bool {
    let names = pieces(path, '/');
    &&& path.len() > 0
    &&& utf8_len(path) <= 1_024
    &&& names.len() <= 64
    &&& !path.contains('\0')
    &&& !path.contains('\\')
    &&& forall|i: int|
        0 <= i < names.len() ==> (#[trigger] names[i]).len() > 0 && names[i] != "."@ && names[i] != ".."@
    &&& !(path.len() >= 2 && path[1] == ':')
}

/// A local result of JSON is handed on where it has at most 8,000 bytes, and refused where it has more;
/// encrypted parts are always handed on.
pub proof fn law_small_results_are_handed_on(result: LocalResultView)
    ensures
        match result {
            LocalResultView::Json(value) => {
                &&& json_size(value) <= 8_000 ==> bounded_result(result) == Ok::<_, Seq<char>>(result)
                &&& json_size(value) > 8_000 ==> (bounded_result(result) matches Err(error) && error
                    == "Local context result exceeds the output limit; request a smaller range."@)
            },
            LocalResultView::AgentMessageReplay(_) => bounded_result(result) == Ok::<_, Seq<char>>(result),
        },
{
}

/// Requests for the history of a thread that can be shown are answered each in its own way: with a page of
/// the windows, a page of the items that were asked for, or the item itself.
pub proof fn law_history_requests_are_answered(request: HistoryRequest, found: ScanResult)
    requires
        !found@.info.lineage_unavailable,
        found@.entries.len() <= usize::MAX,
        found@.windows.len() <= usize::MAX,
    ensures
        match request {
            HistoryRequest::ListWindows(request) => history_answer(HistoryRequest::ListWindows(request), Ok(found))
                matches LocalResultView::Json(answer) && {
                let shown = items_in(answer, "windows"@);
                let all = windows_to_list(request, found@);
                &&& request.offset < all.len() ==> shown == all.subrange(
                    request.offset as int,
                    request.offset + shown.len(),
                )
                &&& request.offset >= all.len() ==> shown.len() == 0
            },
            HistoryRequest::ListItems(request) => history_answer(HistoryRequest::ListItems(request), Ok(found))
                matches LocalResultView::Json(answer) && {
                let shown = items_in(answer, "items"@);
                let all = items_to_list(request@, found@);
                &&& request@.offset < all.len() ==> shown == all.subrange(
                    request@.offset as int,
                    request@.offset + shown.len(),
                )
                &&& request@.offset >= all.len() ==> shown.len() == 0
            },
            HistoryRequest::ReadItem(request) => history_answer(HistoryRequest::ReadItem(request), Ok(found))
                == read_answer(request@, found@),
        },
{
    match request {
        HistoryRequest::ListWindows(request) => {
            law_window_pages_tile(request, found@);
        },
        HistoryRequest::ListItems(request) => {
            law_item_pages_tile(request@, found@);
        },
        HistoryRequest::ReadItem(request) => {},
    }
}

/// Whatever is asked of the history of a thread that cannot be scanned, or whose history is inherited, the
/// answer says that it is unavailable and shows nothing of it.
pub proof fn law_unavailable_history_shows_nothing(request: HistoryRequest, scan: Result<ScanResult, ScanFailure>)
    requires
        scan matches Ok(found) ==> found@.info.lineage_unavailable,
    ensures
        history_answer(request, scan) matches LocalResultView::Json(answer) && {
            &&& text_field(answer, "status"@) == Some("unavailable"@)
            &&& field_of(answer, "items"@) is None
            &&& field_of(answer, "windows"@) is None
            &&& field_of(answer, "content"@) is None
        },
{
    reveal_strlit("status");
    reveal_strlit("reason");
    reveal_strlit("items");
    reveal_strlit("windows");
    reveal_strlit("content");
    assert("status"@.len() == 6 && "reason"@.len() == 6 && "items"@.len() == 5 && "windows"@.len() == 7
        && "content"@.len() == 7);
    assert("status"@[0] == 's' && "reason"@[0] == 'r');
}

/// Calls go to the backend that was chosen: all of them to the remote one, or none. Locally the hint is an
/// operation of its own. Arguments that are no object go nowhere.
pub proof fn law_calls_go_to_their_backend(kind: BackendKind, path: Seq<char>, arguments: JsonView)
    ensures
        !(arguments is Object) ==> route_of(kind, path, arguments) is Err,
        arguments is Object ==> (route_of(kind, path, arguments) matches Ok(route) && (route == Route::Remote <==> kind
            == BackendKind::Codex) && (route == Route::ThreadHint <==> kind == BackendKind::Local && path
            == "alpha/notes/v2/thread_hint"@)),
{
}

/// A remote call sends all its arguments as they are but for the context, which tells whose call it is, to the
/// operation that was called, with the truncation policy; it is given up after 35 seconds. It says that its
/// arguments are encrypted exactly where they carry a query or the text of a note.
pub proof fn law_remote_calls_send_their_arguments(
    path: Seq<char>,
    session_id: Seq<char>,
    current_agent_name: Seq<char>,
    arguments: JsonView,
    policy: Seq<char>,
)
    requires
        arguments is Object,
        forall|i: int|
            0 <= i < policy.len() ==> ((#[trigger] policy[i]) as u32 >= 32 && policy[i] as u32 != 127) || policy[i]
                == '\t',
    ensures
        remote_request(path, session_id, current_agent_name, arguments, Some(policy)) matches Ok(request) && {
            let encrypted = path == "alpha/history/v2/search_contents"@ || path == "alpha/notes/v2/search_contents"@
                || path == "alpha/notes/v2/append_to_file"@ || path == "alpha/notes/v2/write_file"@;
            &&& request.path == path
            &&& request.timeout_seconds == 35
            &&& forall|name: Seq<char>|
                name != "context"@ ==> #[trigger] field_of(request.body, name) == field_of(arguments, name)
            &&& field_of(request.body, "context"@) matches Some(context) && text_field(context, "session_id"@) == Some(
                session_id,
            ) && text_field(context, "current_agent_name"@) == Some(current_agent_name)
            &&& request.headers.len() == (if encrypted {
                2int
            } else {
                1int
            })
            &&& request.headers[0] == ("x-openai-tool-output-truncation-policy"@, encode_utf8(policy))
            &&& encrypted ==> request.headers[1] == ("x-openai-encrypted-tool-arguments"@, encode_utf8("true"@))
        },
{
    reveal_strlit("session_id");
    reveal_strlit("current_agent_name");
    assert("session_id"@.len() == 10 && "current_agent_name"@.len() == 18);
    assert(crate::backend::header_text(policy)) by {
        assert forall|i: int| 0 <= i < policy.len() implies crate::backend::header_char(#[trigger] policy[i]) by {}
    }
}

/// A remote call without a policy, or with one that is no header, sends nothing and says which it was.
pub proof fn law_remote_calls_need_a_policy(
    path: Seq<char>,
    session_id: Seq<char>,
    current_agent_name: Seq<char>,
    arguments: JsonView,
    policy: Seq<char>,
    index: int,
)
    requires
        arguments is Object,
        0 <= index < policy.len(),
        (policy[index] as u32) < 32 || policy[index] as u32 == 127,
        policy[index] != '\t',
    ensures
        remote_request(path, session_id, current_agent_name, arguments, None) matches Err(error) && error
            == failure_text(OperationFailure::PolicyEncoding),
        remote_request(path, session_id, current_agent_name, arguments, Some(policy)) matches Err(error) && error
            == failure_text(OperationFailure::PolicyHeader),
{
    assert(!crate::backend::header_char(policy[index]));
}

/// What a failed operation is said to be starts alike and tells the failures apart.
pub proof fn law_failures_are_told_apart(left: OperationFailure, right: OperationFailure)
    ensures
        failure_text(left).len() > 28,
        failure_text(left).take(28) == "Unable to perform operation:"@,
        failure_text(left) == failure_text(right) ==> left == right,
{
    reveal_strlit("Unable to perform operation:");
    reveal_strlit(" Could not resolve the backend provider.");
    reveal_strlit(" Could not resolve backend authentication.");
    reveal_strlit(" Could not encode the output truncation policy.");
    reveal_strlit(" Could not construct the output truncation policy header.");
    reveal_strlit(" Could not apply backend authentication.");
    reveal_strlit(" The backend request failed.");
    reveal_strlit(" The backend returned invalid JSON.");
    let head = "Unable to perform operation:"@;
    assert(head.len() == 28);
    assert(failure_text(left).take(28) =~= head);
    assert(" Could not resolve the backend provider."@.len() == 40);
    assert(" Could not resolve backend authentication."@.len() == 42);
    assert(" Could not encode the output truncation policy."@.len() == 47);
    assert(" Could not construct the output truncation policy header."@.len() == 57);
    assert(" Could not apply backend authentication."@.len() == 40);
    assert(" The backend request failed."@.len() == 28);
    assert(" The backend returned invalid JSON."@.len() == 35);
    assert(" Could not resolve the backend provider."@[11] == 'r');
    assert(" Could not apply backend authentication."@[11] == 'a');
    assert(failure_text(OperationFailure::Provider)[39] == 'r');
    assert(failure_text(OperationFailure::ApplyAuthentication)[39] == 'a');
    assert(failure_text(OperationFailure::Provider).len() == 68);
    assert(failure_text(OperationFailure::Authentication).len() == 70);
    assert(failure_text(OperationFailure::PolicyEncoding).len() == 75);
    assert(failure_text(OperationFailure::PolicyHeader).len() == 85);
    assert(failure_text(OperationFailure::ApplyAuthentication).len() == 68);
    assert(failure_text(OperationFailure::Request).len() == 56);
    assert(failure_text(OperationFailure::InvalidJson).len() == 63);
}

/// The calls of which observers see nothing: those of the local backend, while it is on, in the namespaces
/// of the history and note tools, under their own names or the ones they had before. Of every other call the
/// logs say what they always do.
pub proof fn law_which_calls_are_private(invocation: ToolInvocation)
    ensures
        is_private(invocation) <==> {
            &&& invocation.context_management_backend == ContextManagementBackend::Local
            &&& invocation.context_management_enabled
            &&& invocation.namespace matches Some(name) && (name@ == "history"@ || name@ == "notes"@ || name@
                == "local_history"@ || name@ == "local_notes"@)
        },
        is_private(invocation) ==> logged(invocation) == json_text(
            JsonView::Object(map!["local_context_private"@ => JsonView::Bool(true)]),
        ),
        !is_private(invocation) ==> logged(invocation) == invocation.log_text@,
{
}

/// An image of a result, as the model gets it: its data under its type, with the detail it asks for.
pub open spec fn is_image_of(part: OutputItemView, image: JsonView) -> bool {
    match (field_of(image, "data"@), field_of(image, "mime_type"@)) {
        (Some(JsonView::Text(data)), Some(JsonView::Text(mime_type))) => part == (OutputItemView::InputImage {
            image_url: "data:"@ + mime_type + ";base64,"@ + data,
            detail: match field_of(image, "detail"@) {
                Some(detail) => detail,
                None => JsonView::Null,
            },
        }),
        _ => false,
    }
}

/// An image that can be handed on: with data and a type that are texts, and a detail that is known.
pub open spec fn is_sound(image: JsonView, known: bool) -> bool {
    &&& field_of(image, "data"@) matches Some(JsonView::Text(_))
    &&& field_of(image, "mime_type"@) matches Some(JsonView::Text(_))
    &&& known
}

/// Images are handed on one for one, or not at all.
proof fn lemma_images(images: Seq<JsonView>, known: Seq<bool>)
    requires
        known.len() >= images.len(),
    ensures
        match image_parts(images, known) {
            Some(parts) => {
                &&& parts.len() == images.len()
                &&& forall|i: int| 0 <= i < images.len() ==> is_image_of(parts[i], #[trigger] images[i])
                &&& forall|i: int| 0 <= i < images.len() ==> is_sound(#[trigger] images[i], known[i])
            },
            None => exists|i: int| 0 <= i < images.len() && !is_sound(#[trigger] images[i], known[i]),
        },
    decreases images.len(),
{
    if images.len() > 0 {
        let shorter = images.drop_last();
        lemma_images(shorter, known);
        let last = images.len() - 1;
        match image_parts(shorter, known) {
            Some(parts) => {
                if let Some(all) = image_parts(images, known) {
                    assert forall|i: int| 0 <= i < images.len() implies is_image_of(all[i], #[trigger] images[i])
                        && is_sound(images[i], known[i]) by {
                        if i < last {
                            assert(shorter[i] == images[i]);
                        }
                    }
                } else {
                    assert(!is_sound(images[last], known[last]));
                }
            },
            None => {
                let i = choose|i: int| 0 <= i < shorter.len() && !is_sound(#[trigger] shorter[i], known[i]);
                assert(!is_sound(images[i], known[i]));
            },
        }
    }
}

/// What the model gets of a result: its encrypted output where it has one, else the text of all of it but
/// the images; and behind that its images, one for one and in their order. The result that is kept has
/// every field but the images. One image that is not sound refuses the whole result.
pub proof fn law_output_shows_the_result(result: JsonView, known: Seq<bool>, images: Seq<JsonView>)
    requires
        result is Object,
        field_of(result, "images"@) == Some(JsonView::Array(images)),
        known.len() == images.len(),
    ensures
        match tool_output(result, known) {
            Ok(output) => {
                &&& forall|i: int| 0 <= i < images.len() ==> is_sound(#[trigger] images[i], known[i])
                &&& forall|name: Seq<char>|
                    name != "images"@ ==> #[trigger] field_of(output.result, name) == field_of(result, name)
                &&& field_of(output.result, "images"@) is None
                &&& !output.redact_observers
                &&& output.output matches OutputBodyView::ContentItems(parts) && {
                    &&& parts.len() == images.len() + 1
                    &&& match field_of(result, "encrypted_output"@) {
                        Some(JsonView::Text(encrypted)) => parts[0] == (OutputItemView::EncryptedContent {
                            encrypted_content: encrypted,
                        }),
                        _ => parts[0] == (OutputItemView::InputText { text: json_text(output.result) }),
                    }
                    &&& forall|i: int| 0 <= i < images.len() ==> is_image_of(parts[i + 1], #[trigger] images[i])
                }
            },
            Err(message) => {
                &&& message == "History backend returned invalid image content."@
                &&& exists|i: int| 0 <= i < images.len() && !is_sound(#[trigger] images[i], known[i])
            },
        },
{
    lemma_images(images, known);
    reveal_strlit("images");
    reveal_strlit("encrypted_output");
    assert("images"@.len() == 6 && "encrypted_output"@.len() == 16);
}

/// A result without images is its encrypted output or its text, whole; one whose images are no list is
/// refused.
pub proof fn law_output_without_images(result: JsonView, known: Seq<bool>)
    ensures
        field_of(result, "images"@) is None && result is Object ==> (tool_output(result, known) matches Ok(output) && {
            &&& forall|name: Seq<char>| #[trigger] field_of(output.result, name) == field_of(result, name)
            &&& !output.redact_observers
            &&& match field_of(result, "encrypted_output"@) {
                Some(JsonView::Text(encrypted)) => output.output matches OutputBodyView::ContentItems(parts)
                    && parts.len() == 1 && parts[0] == (OutputItemView::EncryptedContent {
                    encrypted_content: encrypted,
                }),
                _ => output.output == OutputBodyView::Text(json_text(result)),
            }
        }),
        (field_of(result, "images"@) matches Some(images) && !(images is Array)) ==> tool_output(result, known) is Err,
{
    if field_of(result, "images"@) is None && result is Object {
        assert(fields_in(result).remove("images"@) =~= fields_in(result));
    }
    reveal_strlit("images");
    reveal_strlit("encrypted_output");
    assert("images"@.len() == 6 && "encrypted_output"@.len() == 16);
}

/// Observers see the result itself, unless it is private: of a private one they see only that it is.
pub proof fn law_what_observers_see(output: ToolOutputView)
    ensures
        !output.redact_observers ==> observed(output) == output.result,
        output.redact_observers ==> observed(output) == JsonView::Object(
            map!["local_context_private"@ => JsonView::Bool(true)],
        ),
{
}

} // verus!
