//! The history and note tools of one thread: which calls are admitted, and what each of them needs.
//!
//! The host passes the thread's own store. Nothing here discovers other sessions.

use vstd::prelude::*;
use vstd::string::*;

use crate::history::check_scan;
use crate::history::items_answer;
use crate::history::items_outcome;
use crate::history::items_request;
use crate::history::list_items;
use crate::history::list_windows;
use crate::history::plan_items;
use crate::history::plan_read;
use crate::history::plan_search;
use crate::history::plan_windows;
use crate::history::read_answer;
use crate::history::read_item;
use crate::history::read_outcome;
use crate::history::read_request;
use crate::history::search_request;
use crate::history::usable_scan;
use crate::history::windows_answer;
use crate::history::windows_outcome;
use crate::history::windows_request;
use crate::history::ItemsRequest;
use crate::history::LocalHistoryNotesResult;
use crate::history::LocalResultView;
use crate::history::ReadRequest;
use crate::history::ScanFailure;
use crate::history::WindowsRequest;
use crate::json::field_of;
use crate::json::json_size;
use crate::json::serialized_len;
use crate::json::text_field;
use crate::json::text_in;
use crate::json::Json;
use crate::json::JsonView;
use crate::limits::invalid_argument;
use crate::limits::invalid_argument_view;
use crate::limits::MAX_LOCAL_ARGUMENT_BYTES;
use crate::limits::MAX_NOTE_CALL_TEXT_BYTES;
use crate::note_helpers::optional_path_checked;
use crate::note_helpers::path_checked;
use crate::note_helpers::path_outcome;
use crate::notes::list_outcome;
use crate::notes::list_request;
use crate::notes::note_search_request;
use crate::notes::path_in;
use crate::notes::plan_list;
use crate::notes::plan_read_file;
use crate::notes::plan_write;
use crate::notes::read_note_request;
use crate::notes::search_outcome;
use crate::notes::write_outcome;
use crate::notes::write_request;
use crate::notes::ListRequest;
use crate::notes::LocalNoteStore;
use crate::notes::SearchRequest;
use crate::notes::WriteRequest;
use crate::scanner::ScanResult;
use crate::text::byte_len;
use crate::text::same_text;
use crate::text::utf8_len;

verus! {

/// One of the operations that the tools offer.
#[derive(Clone, Copy, Debug, PartialEq, Eq, Structural)]
pub enum Endpoint {
    ListWindows,
    ListItems,
    ReadItem,
    SearchHistory,
    ListFiles,
    ReadFile,
    SearchNotes,
    AppendFile,
    WriteFile,
}

/// The operation under a name.
pub open spec fn endpoint_named(name: Seq<char>) -> Option<Endpoint> {
    if name == "alpha/history/v2/list_windows"@ {
        Some(Endpoint::ListWindows)
    } else if name == "alpha/history/v2/list_items"@ {
        Some(Endpoint::ListItems)
    } else if name == "alpha/history/v2/read_item"@ {
        Some(Endpoint::ReadItem)
    } else if name == "alpha/history/v2/search_contents"@ {
        Some(Endpoint::SearchHistory)
    } else if name == "alpha/notes/v2/list_files_by_prefix"@ {
        Some(Endpoint::ListFiles)
    } else if name == "alpha/notes/v2/read_file"@ {
        Some(Endpoint::ReadFile)
    } else if name == "alpha/notes/v2/search_contents"@ {
        Some(Endpoint::SearchNotes)
    } else if name == "alpha/notes/v2/append_to_file"@ {
        Some(Endpoint::AppendFile)
    } else if name == "alpha/notes/v2/write_file"@ {
        Some(Endpoint::WriteFile)
    } else {
        None
    }
}

/// The operation under a name.
pub fn parse_endpoint(name: &str) -> (endpoint: Option<Endpoint>)
    ensures
        endpoint == endpoint_named(name@),
{
    if same_text(name, "alpha/history/v2/list_windows") {
        Some(Endpoint::ListWindows)
    } else if same_text(name, "alpha/history/v2/list_items") {
        Some(Endpoint::ListItems)
    } else if same_text(name, "alpha/history/v2/read_item") {
        Some(Endpoint::ReadItem)
    } else if same_text(name, "alpha/history/v2/search_contents") {
        Some(Endpoint::SearchHistory)
    } else if same_text(name, "alpha/notes/v2/list_files_by_prefix") {
        Some(Endpoint::ListFiles)
    } else if same_text(name, "alpha/notes/v2/read_file") {
        Some(Endpoint::ReadFile)
    } else if same_text(name, "alpha/notes/v2/search_contents") {
        Some(Endpoint::SearchNotes)
    } else if same_text(name, "alpha/notes/v2/append_to_file") {
        Some(Endpoint::AppendFile)
    } else if same_text(name, "alpha/notes/v2/write_file") {
        Some(Endpoint::WriteFile)
    } else {
        None
    }
}

/// What is asked of the thread's history.
#[derive(Debug)]
pub enum HistoryRequest {
    ListWindows(WindowsRequest),
    ListItems(ItemsRequest),
    ReadItem(ReadRequest),
}

/// What an admitted call needs.
#[derive(Debug)]
pub enum LocalPlan {
    /// Nothing: this is the answer.
    Answer(Json),
    /// A scan of the thread's records.
    History(HistoryRequest),
    /// The files of the thread's notes.
    ListFiles(ListRequest),
    /// The note at this path.
    ReadFile(String),
    /// The files of the thread's notes, and the text of some of them.
    SearchNotes(SearchRequest),
    /// The note at the request's path, then a write.
    AppendFile(WriteRequest),
    /// A write.
    WriteFile(WriteRequest),
}

/// The history and note tools of one thread.
#[derive(Debug)]
pub struct LocalHistoryNotesStore {
    pub thread_id: String,
    pub current_agent_name: String,
}

/// The call is of another agent than the thread's own.
pub open spec fn is_foreign(arguments: JsonView, current_agent_name: Seq<char>) -> bool {
    match field_of(arguments, "agent_name"@) {
        None => false,
        Some(JsonView::Null) => false,
        Some(requested) => text_in(requested) != Some(current_agent_name),
    }
}

/// The answer to a call of another agent.
pub open spec fn foreign_view(thread_id: Seq<char>, current_agent_name: Seq<char>) -> JsonView {
    JsonView::Object(
        map![
            "status"@ => JsonView::Text("unavailable"@),
            "reason"@ => JsonView::Text("cross_thread_history_is_not_available"@),
            "scope"@ => JsonView::Object(map![
                "thread_id"@ => JsonView::Text(thread_id),
                "agent_name"@ => JsonView::Text(current_agent_name),
            ]),
        ],
    )
}

/// The call changes a note.
pub open spec fn changes_note(name: Seq<char>) -> bool {
    name == "alpha/notes/v2/write_file"@ || name == "alpha/notes/v2/append_to_file"@
}

/// The answer to a call that is refused before anything is read or written.
pub open spec fn refusal(
    store: LocalHistoryNotesStore,
    name: Seq<char>,
    arguments: JsonView,
) -> Option<JsonView> {
    if json_size(arguments) > MAX_LOCAL_ARGUMENT_BYTES {
        Some(invalid_argument_view("arguments"@, "local call JSON exceeds 4000 UTF-8 bytes"@))
    } else if changes_note(name) && (text_field(arguments, "text"@) matches Some(text) && utf8_len(text)
        > MAX_NOTE_CALL_TEXT_BYTES) {
        Some(
            invalid_argument_view(
                "text"@,
                "local note text exceeds 3000 UTF-8 bytes per call; append smaller chunks"@,
            ),
        )
    } else if is_foreign(arguments, store.current_agent_name@) {
        Some(foreign_view(store.thread_id@, store.current_agent_name@))
    } else {
        None
    }
}

/// The plan of a call of the given operation.
pub open spec fn planned(plan: LocalPlan, endpoint: Endpoint, arguments: JsonView) -> bool {
    match endpoint {
        Endpoint::ListWindows => match plan {
            LocalPlan::Answer(answer) => windows_outcome(Err(answer)) == windows_request(arguments),
            LocalPlan::History(HistoryRequest::ListWindows(request)) => windows_outcome(Ok(request)) == windows_request(arguments),
            _ => false,
        },
        Endpoint::ListItems => match plan {
            LocalPlan::Answer(answer) => items_outcome(Err(answer)) == items_request(arguments, None),
            LocalPlan::History(HistoryRequest::ListItems(request)) => items_outcome(Ok(request)) == items_request(arguments, None),
            _ => false,
        },
        Endpoint::SearchHistory => match plan {
            LocalPlan::Answer(answer) => items_outcome(Err(answer)) == search_request(arguments),
            LocalPlan::History(HistoryRequest::ListItems(request)) => items_outcome(Ok(request)) == search_request(arguments),
            _ => false,
        },
        Endpoint::ReadItem => match plan {
            LocalPlan::Answer(answer) => read_outcome(Err(answer)) == read_request(arguments),
            LocalPlan::History(HistoryRequest::ReadItem(request)) => read_outcome(Ok(request)) == read_request(arguments),
            _ => false,
        },
        Endpoint::ListFiles => exists|prefix: Result<Option<Seq<char>>, JsonView>|
            #[trigger] optional_path_checked(prefix, arguments, "prefix"@, true) && match plan {
                LocalPlan::Answer(answer) => list_outcome(Err(answer)) == list_request(arguments, prefix),
                LocalPlan::ListFiles(request) => list_outcome(Ok(request)) == list_request(arguments, prefix),
                _ => false,
            },
        Endpoint::SearchNotes => exists|prefix: Result<Option<Seq<char>>, JsonView>|
            #[trigger] optional_path_checked(prefix, arguments, "path_prefix"@, true) && match plan {
                LocalPlan::Answer(answer) => search_outcome(Err(answer)) == note_search_request(
                    arguments,
                    prefix,
                ),
                LocalPlan::SearchNotes(request) => search_outcome(Ok(request)) == note_search_request(
                    arguments,
                    prefix,
                ),
                _ => false,
            },
        Endpoint::ReadFile => exists|path: Result<Seq<char>, JsonView>|
            #[trigger] path_checked(path, path_in(arguments), "path"@, false) && match plan {
                LocalPlan::Answer(answer) => path_outcome(Err(answer)) == read_note_request(arguments, path),
                LocalPlan::ReadFile(checked) => path_outcome(Ok(checked)) == read_note_request(
                    arguments,
                    path,
                ),
                _ => false,
            },
        Endpoint::AppendFile => exists|path: Result<Seq<char>, JsonView>|
            #[trigger] path_checked(path, path_in(arguments), "path"@, false) && match plan {
                LocalPlan::Answer(answer) => write_outcome(Err(answer)) == write_request(arguments, path),
                LocalPlan::AppendFile(request) => write_outcome(Ok(request)) == write_request(arguments, path),
                _ => false,
            },
        Endpoint::WriteFile => exists|path: Result<Seq<char>, JsonView>|
            #[trigger] path_checked(path, path_in(arguments), "path"@, false) && match plan {
                LocalPlan::Answer(answer) => write_outcome(Err(answer)) == write_request(arguments, path),
                LocalPlan::WriteFile(request) => write_outcome(Ok(request)) == write_request(arguments, path),
                _ => false,
            },
    }
}

/// What an admitted call of the given operation needs.
fn plan_endpoint(endpoint: Endpoint, arguments: &Json) -> (plan: LocalPlan)
    ensures
        planned(plan, endpoint, arguments@),
{
    match endpoint {
        Endpoint::ListWindows => match plan_windows(arguments) {
            Ok(request) => LocalPlan::History(HistoryRequest::ListWindows(request)),
            Err(answer) => LocalPlan::Answer(answer),
        },
        Endpoint::ListItems => match plan_items(arguments, None) {
            Ok(request) => LocalPlan::History(HistoryRequest::ListItems(request)),
            Err(answer) => LocalPlan::Answer(answer),
        },
        Endpoint::SearchHistory => match plan_search(arguments) {
            Ok(request) => LocalPlan::History(HistoryRequest::ListItems(request)),
            Err(answer) => LocalPlan::Answer(answer),
        },
        Endpoint::ReadItem => match plan_read(arguments) {
            Ok(request) => LocalPlan::History(HistoryRequest::ReadItem(request)),
            Err(answer) => LocalPlan::Answer(answer),
        },
        Endpoint::ListFiles => match plan_list(arguments) {
            Ok(request) => LocalPlan::ListFiles(request),
            Err(answer) => LocalPlan::Answer(answer),
        },
        Endpoint::SearchNotes => match crate::notes::plan_search(arguments) {
            Ok(request) => LocalPlan::SearchNotes(request),
            Err(answer) => LocalPlan::Answer(answer),
        },
        Endpoint::ReadFile => match plan_read_file(arguments) {
            Ok(path) => LocalPlan::ReadFile(path),
            Err(answer) => LocalPlan::Answer(answer),
        },
        Endpoint::AppendFile => match plan_write(arguments) {
            Ok(request) => LocalPlan::AppendFile(request),
            Err(answer) => LocalPlan::Answer(answer),
        },
        Endpoint::WriteFile => match plan_write(arguments) {
            Ok(request) => LocalPlan::WriteFile(request),
            Err(answer) => LocalPlan::Answer(answer),
        },
    }
}

/// The answer to a request for the thread's history, given what came of its scan.
pub open spec fn history_answer(
    request: HistoryRequest,
    scan: Result<ScanResult, ScanFailure>,
) -> LocalResultView {
    match usable_scan(scan) {
        Err(error) => LocalResultView::Json(error),
        Ok(scan) => match request {
            HistoryRequest::ListWindows(request) => LocalResultView::Json(windows_answer(request, scan)),
            HistoryRequest::ListItems(request) => LocalResultView::Json(items_answer(request@, scan)),
            HistoryRequest::ReadItem(request) => read_answer(request@, scan),
        },
    }
}

impl LocalHistoryNotesStore {
    /// The tools of the given thread and agent.
    pub fn new(thread_id: &str, current_agent_name: &str) -> (store: LocalHistoryNotesStore)
        ensures
            store.thread_id@ == thread_id@,
            store.current_agent_name@ == current_agent_name@,
    {
        LocalHistoryNotesStore {
            thread_id: thread_id.to_owned(),
            current_agent_name: current_agent_name.to_owned(),
        }
    }

    /// The notes of the thread.
    pub fn notes(&self) -> (store: LocalNoteStore)
        ensures
            store.thread_id@ == self.thread_id@,
    {
        LocalNoteStore::new(self.thread_id.as_str())
    }

    /// The answer to a call of another agent than the thread's own.
    pub fn reject_foreign_agent(&self, arguments: &Json) -> (answer: Option<Json>)
        ensures
            match answer {
                Some(answer) => is_foreign(arguments@, self.current_agent_name@) && answer@ == foreign_view(
                    self.thread_id@,
                    self.current_agent_name@,
                ),
                None => !is_foreign(arguments@, self.current_agent_name@),
            },
    {
        let requested = match arguments.get("agent_name") {
            None => {
                return None;
            },
            Some(requested) => requested,
        };
        if requested.is_null() {
            return None;
        }
        if let Some(name) = requested.as_str() {
            if same_text(name, self.current_agent_name.as_str()) {
                return None;
            }
        }
        let mut scope = Json::object();
        scope.set("thread_id", Json::text(self.thread_id.as_str()));
        scope.set("agent_name", Json::text(self.current_agent_name.as_str()));
        let mut answer = Json::object();
        answer.set("status", Json::text("unavailable"));
        answer.set("reason", Json::text("cross_thread_history_is_not_available"));
        answer.set("scope", scope);
        Some(answer)
    }

    /// What a call needs: nothing where it is refused, and the plan of its operation otherwise.
    pub fn call(&self, endpoint: &str, arguments: &Json) -> (outcome: Result<LocalPlan, String>)
        ensures
            match refusal(*self, endpoint@, arguments@) {
                Some(answer) => outcome matches Ok(LocalPlan::Answer(found)) && found@ == answer,
                None => match endpoint_named(endpoint@) {
                    Some(endpoint) => outcome matches Ok(plan) && planned(plan, endpoint, arguments@),
                    None => outcome matches Err(error) && error@
                        == "unsupported local history-notes endpoint: "@ + endpoint@,
                },
            },
    {
        if serialized_len(arguments) > MAX_LOCAL_ARGUMENT_BYTES {
            return Ok(
                LocalPlan::Answer(
                    invalid_argument("arguments", "local call JSON exceeds 4000 UTF-8 bytes"),
                ),
            );
        }
        if same_text(endpoint, "alpha/notes/v2/write_file") || same_text(
            endpoint,
            "alpha/notes/v2/append_to_file",
        ) {
            if let Some(text) = arguments.text_at("text") {
                if byte_len(text) > MAX_NOTE_CALL_TEXT_BYTES {
                    return Ok(
                        LocalPlan::Answer(
                            invalid_argument(
                                "text",
                                "local note text exceeds 3000 UTF-8 bytes per call; append smaller chunks",
                            ),
                        ),
                    );
                }
            }
        }
        if let Some(answer) = self.reject_foreign_agent(arguments) {
            return Ok(LocalPlan::Answer(answer));
        }
        match parse_endpoint(endpoint) {
            Some(endpoint) => Ok(plan_endpoint(endpoint, arguments)),
            None => {
                let mut error = "unsupported local history-notes endpoint: ".to_owned();
                error.append(endpoint);
                Err(error)
            },
        }
    }
}

/// Answers a request for the thread's history, given what came of its scan.
pub fn answer_history(request: &HistoryRequest, scan: Result<ScanResult, ScanFailure>) -> (answer:
    LocalHistoryNotesResult)
    ensures
        answer@ == history_answer(*request, scan),
{
    let scan = match check_scan(scan) {
        Ok(scan) => scan,
        Err(error) => {
            return LocalHistoryNotesResult::Json(error);
        },
    };
    match request {
        HistoryRequest::ListWindows(request) => LocalHistoryNotesResult::Json(list_windows(request, &scan)),
        HistoryRequest::ListItems(request) => LocalHistoryNotesResult::Json(list_items(request, &scan)),
        HistoryRequest::ReadItem(request) => read_item(request, &scan),
    }
}

/// A call of another agent is refused before anything is read or written, whatever it asks for.
pub proof fn law_foreign_calls_touch_nothing(store: LocalHistoryNotesStore, name: Seq<char>, arguments: JsonView)
    requires
        is_foreign(arguments, store.current_agent_name@),
    ensures
        refusal(store, name, arguments) is Some,
{
}

/// A call that may change a note is within the limits on its arguments and on its text.
pub proof fn law_admitted_text_is_small(store: LocalHistoryNotesStore, name: Seq<char>, arguments: JsonView)
    requires
        refusal(store, name, arguments) is None,
        changes_note(name),
    ensures
        text_field(arguments, "text"@) matches Some(text) ==> utf8_len(text) <= MAX_NOTE_CALL_TEXT_BYTES,
        json_size(arguments) <= MAX_LOCAL_ARGUMENT_BYTES,
{
}

} // verus!
