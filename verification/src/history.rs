//! Windows, items and contents of a thread's scanned history.

use vstd::prelude::*;
use vstd::string::*;

use crate::json::field_of;
use crate::json::fields_in;
use crate::json::flag_field;
use crate::json::has_array;
use crate::json::items_in;
use crate::json::items_view;
use crate::json::json_size;
use crate::json::json_view;
use crate::json::lemma_decimal_size;
use crate::json::lemma_items_view;
use crate::json::lemma_plain_size;
use crate::json::lemma_size_with_field;
use crate::json::serialized_len;
use crate::json::text_field;
use crate::json::text_or_null;
use crate::json::texts_value;
use crate::json::unsigned_in;
use crate::json::unsigned_or_null;
use crate::json::unsigned_view;
use crate::json::with_field;
use crate::json::Json;
use crate::json::JsonView;
use crate::json::NumberView;
use crate::limits::bounded_count;
use crate::limits::bounded_usize;
use crate::limits::char_count;
use crate::limits::char_range;
use crate::limits::char_slice;
use crate::limits::cursor;
use crate::limits::cursor_offset;
use crate::limits::invalid_argument;
use crate::limits::invalid_argument_view;
use crate::limits::range_end;
use crate::limits::HISTORY_CURSOR_RESERVE_BYTES;
use crate::limits::HISTORY_SEARCH_LEAD_CHARS;
use crate::limits::MAX_HISTORY_ITEMS;
use crate::limits::MAX_HISTORY_ITEM_PREVIEW_CHARS;
use crate::limits::MAX_HISTORY_QUERY_CHARS;
use crate::limits::MAX_HISTORY_READ_CHARS;
use crate::limits::MAX_HISTORY_RESULT_BYTES;
use crate::limits::MAX_HISTORY_SEARCH_EXCERPT_CHARS;
use crate::limits::MAX_HISTORY_WINDOWS;
use crate::projection::ProjectedView;
use crate::records::output_items_view;
use crate::records::FunctionCallOutputContentItem;
use crate::records::OutputItemView;
use crate::scanner::EntryView;
use crate::scanner::HistoryEntry;
use crate::scanner::ScanResult;
use crate::scanner::ScanView;
use crate::scanner::SourceRef;
use crate::scanner::WindowSummary;
use crate::scanner::WindowView;
use crate::text::contains;
use crate::text::decimal;
use crate::text::decimal_text;
use crate::text::find;
use crate::text::first_at;
use crate::text::law_decimal_round_trip;
use crate::text::occurs;
use crate::text::opt_view;
use crate::text::parsed_decimal;
use crate::text::same_text;
use crate::text::texts_view;

verus! {

/// A local answer: JSON, or the encrypted parts of one recorded agent message, in their order.
#[derive(Debug)]
pub enum LocalHistoryNotesResult {
    Json(Json),
    AgentMessageReplay(Vec<FunctionCallOutputContentItem>),
}

/// What a `LocalHistoryNotesResult` holds.
#[verifier::ext_equal]
pub enum LocalResultView {
    Json(JsonView),
    AgentMessageReplay(Seq<OutputItemView>),
}

impl View for LocalHistoryNotesResult {
    type V = LocalResultView;

    open spec fn view(&self) -> LocalResultView {
        match self {
            LocalHistoryNotesResult::Json(value) => LocalResultView::Json(value@),
            LocalHistoryNotesResult::AgentMessageReplay(items) => LocalResultView::AgentMessageReplay(
                output_items_view(items@),
            ),
        }
    }
}

/// Which windows are asked for.
#[derive(Clone, Copy, Debug, PartialEq, Eq, Structural)]
pub struct WindowsRequest {
    pub limit: usize,
    pub offset: usize,
    pub recent_first: bool,
}

/// Which items are asked for.
#[derive(Debug)]
pub struct ItemsRequest {
    pub limit: usize,
    pub preview: usize,
    pub offset: usize,
    pub recent_first: bool,
    pub window_id: Option<String>,
    pub role: Option<String>,
    pub tool_namespace: Option<String>,
    pub tool_name: Option<String>,
    pub query: Option<String>,
}

/// What an `ItemsRequest` holds.
#[verifier::ext_equal]
pub struct ItemsRequestView {
    pub limit: usize,
    pub preview: usize,
    pub offset: usize,
    pub recent_first: bool,
    pub window_id: Option<Seq<char>>,
    pub role: Option<Seq<char>>,
    pub tool_namespace: Option<Seq<char>>,
    pub tool_name: Option<Seq<char>>,
    pub query: Option<Seq<char>>,
}

impl View for ItemsRequest {
    type V = ItemsRequestView;

    open spec fn view(&self) -> ItemsRequestView {
        ItemsRequestView {
            limit: self.limit,
            preview: self.preview,
            offset: self.offset,
            recent_first: self.recent_first,
            window_id: opt_view(self.window_id),
            role: opt_view(self.role),
            tool_namespace: opt_view(self.tool_namespace),
            tool_name: opt_view(self.tool_name),
            query: opt_view(self.query),
        }
    }
}

/// Which part of which item is asked for.
#[derive(Debug)]
pub struct ReadRequest {
    pub item_id: String,
    pub window_id: String,
    pub offset: usize,
    pub limit: usize,
}

/// What a `ReadRequest` holds.
#[verifier::ext_equal]
pub struct ReadRequestView {
    pub item_id: Seq<char>,
    pub window_id: Seq<char>,
    pub offset: usize,
    pub limit: usize,
}

impl View for ReadRequest {
    type V = ReadRequestView;

    open spec fn view(&self) -> ReadRequestView {
        ReadRequestView {
            item_id: self.item_id@,
            window_id: self.window_id@,
            offset: self.offset,
            limit: self.limit,
        }
    }
}

/// What a request with a JSON error holds.
pub open spec fn windows_outcome(outcome: Result<WindowsRequest, Json>) -> Result<WindowsRequest, JsonView> {
    match outcome {
        Ok(request) => Ok(request),
        Err(error) => Err(error@),
    }
}

/// What a request with a JSON error holds.
pub open spec fn items_outcome(outcome: Result<ItemsRequest, Json>) -> Result<ItemsRequestView, JsonView> {
    match outcome {
        Ok(request) => Ok(request@),
        Err(error) => Err(error@),
    }
}

/// What a request with a JSON error holds.
pub open spec fn read_outcome(outcome: Result<ReadRequest, Json>) -> Result<ReadRequestView, JsonView> {
    match outcome {
        Ok(request) => Ok(request@),
        Err(error) => Err(error@),
    }
}

/// The windows that the arguments ask for.
pub open spec fn windows_request(arguments: JsonView) -> Result<WindowsRequest, JsonView> {
    match bounded_count(arguments, "limit"@, 20, MAX_HISTORY_WINDOWS) {
        Err(error) => Err(error),
        Ok(limit) => match cursor_offset(arguments) {
            Err(error) => Err(error),
            Ok(offset) => Ok(
                WindowsRequest { limit, offset, recent_first: flag_field(arguments, "recent_first"@) },
            ),
        },
    }
}

/// The windows that the arguments ask for.
pub fn plan_windows(arguments: &Json) -> (outcome: Result<WindowsRequest, Json>)
    ensures
        windows_outcome(outcome) == windows_request(arguments@),
{
    let limit: usize = match bounded_usize(arguments, "limit", 20, MAX_HISTORY_WINDOWS) {
        Ok(limit) => limit,
        Err(error) => {
            return Err(error);
        },
    };
    let offset: usize = match cursor(arguments) {
        Ok(offset) => offset,
        Err(error) => {
            return Err(error);
        },
    };
    Ok(WindowsRequest { limit, offset, recent_first: arguments.flag_at("recent_first") })
}

/// The items that the arguments ask for, those with `query` in their text where there is one.
pub open spec fn items_request(
    arguments: JsonView,
    query: Option<Seq<char>>,
) -> Result<ItemsRequestView, JsonView> {
    match bounded_count(arguments, "limit"@, 10, MAX_HISTORY_ITEMS) {
        Err(error) => Err(error),
        Ok(limit) => match bounded_count(
            arguments,
            "max_chars_per_item"@,
            768,
            MAX_HISTORY_ITEM_PREVIEW_CHARS,
        ) {
            Err(error) => Err(error),
            Ok(preview) => match cursor_offset(arguments) {
                Err(error) => Err(error),
                Ok(offset) => Ok(
                    ItemsRequestView {
                        limit,
                        preview,
                        offset,
                        recent_first: flag_field(arguments, "recent_first"@),
                        window_id: text_field(arguments, "window_id"@),
                        role: text_field(arguments, "role"@),
                        tool_namespace: text_field(arguments, "tool_namespace"@),
                        tool_name: text_field(arguments, "tool_name"@),
                        query,
                    },
                ),
            },
        },
    }
}

/// The text of the argument `field`, owned.
fn owned_text_at(arguments: &Json, field: &str) -> (text: Option<String>)
    ensures
        opt_view(text) == text_field(arguments@, field@),
{
    match arguments.text_at(field) {
        Some(text) => Some(text.to_owned()),
        None => None,
    }
}

/// The items that the arguments ask for, those with `query` in their text where there is one.
pub fn plan_items(arguments: &Json, query: Option<String>) -> (outcome: Result<ItemsRequest, Json>)
    ensures
        items_outcome(outcome) == items_request(arguments@, opt_view(query)),
{
    let limit: usize = match bounded_usize(arguments, "limit", 10, MAX_HISTORY_ITEMS) {
        Ok(limit) => limit,
        Err(error) => {
            return Err(error);
        },
    };
    let preview: usize = match bounded_usize(
        arguments,
        "max_chars_per_item",
        768,
        MAX_HISTORY_ITEM_PREVIEW_CHARS,
    ) {
        Ok(preview) => preview,
        Err(error) => {
            return Err(error);
        },
    };
    let offset: usize = match cursor(arguments) {
        Ok(offset) => offset,
        Err(error) => {
            return Err(error);
        },
    };
    Ok(
        ItemsRequest {
            limit,
            preview,
            offset,
            recent_first: arguments.flag_at("recent_first"),
            window_id: owned_text_at(arguments, "window_id"),
            role: owned_text_at(arguments, "role"),
            tool_namespace: owned_text_at(arguments, "tool_namespace"),
            tool_name: owned_text_at(arguments, "tool_name"),
            query,
        },
    )
}

/// The items whose text holds the argument `query`.
pub open spec fn search_request(arguments: JsonView) -> Result<ItemsRequestView, JsonView> {
    match text_field(arguments, "query"@) {
        None => Err(invalid_argument_view("query"@, "must be a string"@)),
        Some(query) => if query.len() == 0 || query.len() > MAX_HISTORY_QUERY_CHARS {
            Err(invalid_argument_view("query"@, "must be non-empty and at most 1000 characters"@))
        } else {
            items_request(arguments, Some(query))
        },
    }
}

/// The items whose text holds the argument `query`.
pub fn plan_search(arguments: &Json) -> (outcome: Result<ItemsRequest, Json>)
    ensures
        items_outcome(outcome) == search_request(arguments@),
{
    let query = match arguments.text_at("query") {
        Some(query) => query,
        None => {
            return Err(invalid_argument("query", "must be a string"));
        },
    };
    let count: usize = char_count(query);
    if count == 0 || count > MAX_HISTORY_QUERY_CHARS {
        return Err(invalid_argument("query", "must be non-empty and at most 1000 characters"));
    }
    plan_items(arguments, Some(query.to_owned()))
}

/// The first character that the arguments ask for.
pub open spec fn read_offset(arguments: JsonView) -> Result<usize, JsonView> {
    match field_of(arguments, "offset_chars"@) {
        None => Ok(0),
        Some(value) => match unsigned_in(value) {
            Some(number) => if number <= usize::MAX {
                Ok(number as usize)
            } else {
                Err(invalid_argument_view("offset_chars"@, "must be a non-negative integer"@))
            },
            None => Err(invalid_argument_view("offset_chars"@, "must be a non-negative integer"@)),
        },
    }
}

/// The part of an item that the arguments ask for.
pub open spec fn read_request(arguments: JsonView) -> Result<ReadRequestView, JsonView> {
    match text_field(arguments, "item_id"@) {
        None => Err(invalid_argument_view("item_id"@, "must be a returned item ID"@)),
        Some(item_id) => match text_field(arguments, "window_id"@) {
            None => Err(invalid_argument_view("window_id"@, "must be a returned window ID"@)),
            Some(window_id) => match read_offset(arguments) {
                Err(error) => Err(error),
                Ok(offset) => match bounded_count(
                    arguments,
                    "limit_chars"@,
                    4000,
                    MAX_HISTORY_READ_CHARS,
                ) {
                    Err(error) => Err(error),
                    Ok(limit) => Ok(ReadRequestView { item_id, window_id, offset, limit }),
                },
            },
        },
    }
}

/// The part of an item that the arguments ask for.
pub fn plan_read(arguments: &Json) -> (outcome: Result<ReadRequest, Json>)
    ensures
        read_outcome(outcome) == read_request(arguments@),
{
    let item_id = match arguments.text_at("item_id") {
        Some(item_id) => item_id.to_owned(),
        None => {
            return Err(invalid_argument("item_id", "must be a returned item ID"));
        },
    };
    let window_id = match arguments.text_at("window_id") {
        Some(window_id) => window_id.to_owned(),
        None => {
            return Err(invalid_argument("window_id", "must be a returned window ID"));
        },
    };
    let offset: usize = match arguments.get("offset_chars") {
        None => 0,
        Some(value) => match value.as_u64() {
            Some(number) => {
                if number > usize::MAX as u64 {
                    return Err(invalid_argument("offset_chars", "must be a non-negative integer"));
                }
                number as usize
            },
            None => {
                return Err(invalid_argument("offset_chars", "must be a non-negative integer"));
            },
        },
    };
    let limit: usize = match bounded_usize(arguments, "limit_chars", 4000, MAX_HISTORY_READ_CHARS) {
        Ok(limit) => limit,
        Err(error) => {
            return Err(error);
        },
    };
    Ok(ReadRequest { item_id, window_id, offset, limit })
}

/// Why a thread's records could not be scanned.
#[derive(Debug)]
pub enum ScanFailure {
    UnsupportedThreadStore,
    ThreadFlushFailed,
    ActiveRolloutUnavailable,
    /// The scan itself failed for this reason.
    Scan(String),
}

/// The word for a failed scan.
pub open spec fn failure_reason(failure: ScanFailure) -> Seq<char> {
    match failure {
        ScanFailure::UnsupportedThreadStore => "unsupported_thread_store"@,
        ScanFailure::ThreadFlushFailed => "thread_flush_failed"@,
        ScanFailure::ActiveRolloutUnavailable => "active_rollout_unavailable"@,
        ScanFailure::Scan(reason) => reason@,
    }
}

/// The answer where something cannot be had.
pub open spec fn unavailable_view(reason: Seq<char>) -> JsonView {
    JsonView::Object(
        map!["status"@ => JsonView::Text("unavailable"@), "reason"@ => JsonView::Text(reason)],
    )
}

/// The answer where something cannot be had.
pub fn unavailable(reason: &str) -> (answer: Json)
    ensures
        answer@ == unavailable_view(reason@),
{
    let mut answer = Json::object();
    answer.set("status", Json::text("unavailable"));
    answer.set("reason", Json::text(reason));
    answer
}

/// A scan that can be shown: one that failed, or of a thread with inherited history, is not.
pub open spec fn usable_scan(scan: Result<ScanResult, ScanFailure>) -> Result<ScanView, JsonView> {
    match scan {
        Err(failure) => Err(unavailable_view(failure_reason(failure))),
        Ok(scan) => if scan@.info.lineage_unavailable {
            Err(unavailable_view("inherited_history_unavailable"@))
        } else {
            Ok(scan@)
        },
    }
}

/// What a scan that can be shown holds.
pub open spec fn usable_outcome(outcome: Result<ScanResult, Json>) -> Result<ScanView, JsonView> {
    match outcome {
        Ok(scan) => Ok(scan@),
        Err(error) => Err(error@),
    }
}

/// A scan that can be shown, or the answer that says why there is none.
pub fn check_scan(scan: Result<ScanResult, ScanFailure>) -> (outcome: Result<ScanResult, Json>)
    ensures
        usable_outcome(outcome) == usable_scan(scan),
{
    match scan {
        Ok(scan) => {
            if scan.info.lineage_unavailable {
                Err(unavailable("inherited_history_unavailable"))
            } else {
                Ok(scan)
            }
        },
        Err(failure) => Err(
            match &failure {
                ScanFailure::UnsupportedThreadStore => unavailable("unsupported_thread_store"),
                ScanFailure::ThreadFlushFailed => unavailable("thread_flush_failed"),
                ScanFailure::ActiveRolloutUnavailable => unavailable("active_rollout_unavailable"),
                ScanFailure::Scan(reason) => unavailable(reason.as_str()),
            },
        ),
    }
}

/// Every record is shown whole: the scan is complete and no entry's text was cut.
pub open spec fn shows_everything(scan: ScanView) -> bool {
    &&& scan.info.complete
    &&& forall|i: int| 0 <= i < scan.entries.len() ==> !(#[trigger] scan.entries[i]).projection.content_truncated
}

/// What every listing says of the scan it comes from.
pub open spec fn scan_metadata_view(scan: ScanView) -> JsonView {
    JsonView::Object(
        map![
            "status"@ => JsonView::Text(if shows_everything(scan) { "ok"@ } else { "partial"@ }),
            "scan_complete"@ => JsonView::Bool(shows_everything(scan)),
            "records_scanned"@ => unsigned_view(scan.info.records_scanned as u64),
            "opaque_records"@ => unsigned_view(scan.info.opaque_records as u64),
            "corrupt"@ => JsonView::Bool(scan.info.corrupt),
            "errors"@ => texts_value(scan.info.errors),
            "truncated"@ => JsonView::Bool(scan.info.truncated),
            "next_cursor"@ => JsonView::Null,
        ],
    )
}

/// What every listing says of the scan it comes from.
pub fn scan_metadata(scan: &ScanResult) -> (metadata: Json)
    ensures
        metadata@ == scan_metadata_view(scan@),
{
    let mut complete: bool = scan.info.complete;
    let mut index: usize = 0;
    while index < scan.entries.len()
        invariant
            index <= scan.entries@.len(),
            complete == (scan.info.complete && forall|i: int|
                0 <= i < index ==> !(#[trigger] scan@.entries[i]).projection.content_truncated),
        decreases scan.entries@.len() - index,
    {
        assert(scan@.entries[index as int] == scan.entries@[index as int]@);
        if scan.entries[index].projection.content_truncated {
            complete = false;
        }
        index = index + 1;
    }
    let mut metadata = Json::object();
    if complete {
        metadata.set("status", Json::text("ok"));
    } else {
        metadata.set("status", Json::text("partial"));
    }
    metadata.set("scan_complete", Json::Bool(complete));
    metadata.set("records_scanned", Json::count(scan.info.records_scanned));
    metadata.set("opaque_records", Json::count(scan.info.opaque_records));
    metadata.set("corrupt", Json::Bool(scan.info.corrupt));
    metadata.set("errors", Json::texts(&scan.info.errors));
    metadata.set("truncated", Json::Bool(scan.info.truncated));
    metadata.set("next_cursor", Json::Null);
    metadata
}

/// An optional count, null where there is none.
pub open spec fn count_or_null(count: Option<usize>) -> JsonView {
    match count {
        Some(count) => unsigned_view(count as u64),
        None => JsonView::Null,
    }
}

/// Where an entry comes from.
pub open spec fn source_view(source: SourceRef) -> JsonView {
    JsonView::Object(
        map![
            "ordinal"@ => unsigned_or_null(source.ordinal),
            "physical_record"@ => unsigned_view(source.physical_record as u64),
            "replacement_index"@ => count_or_null(source.replacement_index),
        ],
    )
}

/// What every answer says of an entry, without its text.
pub open spec fn plain_metadata_view(entry: EntryView) -> JsonView {
    JsonView::Object(
        map![
            "item_id"@ => JsonView::Text(entry.item_id),
            "window_id"@ => JsonView::Text(entry.window_id),
            "window_number"@ => unsigned_view(entry.window_number),
            "role"@ => JsonView::Text(entry.projection.role),
            "kind"@ => JsonView::Text(entry.projection.kind),
            "tool_namespace"@ => text_or_null(entry.projection.tool_namespace),
            "tool_name"@ => text_or_null(entry.projection.tool_name),
            "call_id"@ => text_or_null(entry.projection.call_id),
            "timestamp"@ => JsonView::Text(entry.timestamp),
            "unavailable_reason"@ => text_or_null(entry.projection.unavailable_reason),
            "source"@ => source_view(entry.source),
            "opaque"@ => JsonView::Bool(entry.projection.opaque),
            "source_truncated"@ => JsonView::Bool(entry.projection.content_truncated),
        ],
    )
}

/// The entry has encrypted parts that can be replayed.
pub open spec fn replayable(entry: EntryView) -> bool {
    entry.projection.agent_message_encrypted_parts.len() > 0
}

/// What every answer says of an entry, without its text; an entry that can be replayed says so.
pub open spec fn entry_metadata_view(entry: EntryView) -> JsonView {
    if replayable(entry) {
        with_field(plain_metadata_view(entry), "encrypted_agent_message_replay"@, JsonView::Bool(true))
    } else {
        plain_metadata_view(entry)
    }
}

/// Where an entry comes from.
fn source_json(source: &SourceRef) -> (value: Json)
    ensures
        value@ == source_view(*source),
{
    let mut value = Json::object();
    value.set("ordinal", Json::optional_unsigned(source.ordinal));
    value.set("physical_record", Json::count(source.physical_record));
    value.set(
        "replacement_index",
        match source.replacement_index {
            Some(index) => Json::count(index),
            None => Json::Null,
        },
    );
    value
}

/// What every answer says of an entry, without its text.
pub fn entry_metadata(entry: &HistoryEntry) -> (metadata: Json)
    ensures
        metadata@ == entry_metadata_view(entry@),
{
    let mut metadata = Json::object();
    metadata.set("item_id", Json::text(entry.item_id.as_str()));
    metadata.set("window_id", Json::text(entry.window_id.as_str()));
    metadata.set("window_number", Json::unsigned(entry.window_number));
    metadata.set("role", Json::text(entry.projection.role.as_str()));
    metadata.set("kind", Json::text(entry.projection.kind.as_str()));
    metadata.set("tool_namespace", Json::optional_text(&entry.projection.tool_namespace));
    metadata.set("tool_name", Json::optional_text(&entry.projection.tool_name));
    metadata.set("call_id", Json::optional_text(&entry.projection.call_id));
    metadata.set("timestamp", Json::text(entry.timestamp.as_str()));
    metadata.set("unavailable_reason", Json::optional_text(&entry.projection.unavailable_reason));
    metadata.set("source", source_json(&entry.source));
    metadata.set("opaque", Json::Bool(entry.projection.opaque));
    metadata.set("source_truncated", Json::Bool(entry.projection.content_truncated));
    if entry.projection.agent_message_encrypted_parts.len() > 0 {
        metadata.set("encrypted_agent_message_replay", Json::Bool(true));
    }
    metadata
}

/// An answer leaves room for its continuation cursor.
pub open spec fn leaves_room(answer: JsonView) -> bool {
    json_size(answer) + HISTORY_CURSOR_RESERVE_BYTES <= MAX_HISTORY_RESULT_BYTES
}

/// The answer with `values` in the array `field`.
pub open spec fn filled(base: JsonView, field: Seq<char>, values: Seq<JsonView>) -> JsonView {
    with_field(base, field, JsonView::Array(values))
}

/// How many of the values an answer takes, from the first on, before one leaves no room.
pub open spec fn shown_count(base: JsonView, field: Seq<char>, values: Seq<JsonView>) -> nat
    decreases values.len(),
{
    if values.len() == 0 {
        0
    } else {
        let before = shown_count(base, field, values.drop_last());
        if before == values.len() - 1 && leaves_room(filled(base, field, values)) {
            values.len()
        } else {
            before
        }
    }
}

/// Appends a value to the array `field`, unless the answer would then leave no room; says whether it
/// did.
pub fn push_bounded(result: &mut Json, field: &str, value: Json) -> (pushed: bool)
    requires
        has_array(old(result)@, field@),
    ensures
        pushed == leaves_room(filled(old(result)@, field@, items_in(old(result)@, field@).push(value@))),
        final(result)@ == if pushed {
            filled(old(result)@, field@, items_in(old(result)@, field@).push(value@))
        } else {
            old(result)@
        },
{
    let ghost before = result@;
    let ghost items = items_in(before, field@);
    result.push_item(field, value);
    if serialized_len(result) > MAX_HISTORY_RESULT_BYTES - HISTORY_CURSOR_RESERVE_BYTES {
        result.pop_item(field);
        proof {
            assert(items.push(value@).drop_last() =~= items);
            assert(fields_in(result@) =~= fields_in(before));
        }
        return false;
    }
    true
}

/// The position behind the shown ones.
pub open spec fn next_position(offset: usize, emitted: usize) -> usize {
    if offset + emitted <= usize::MAX {
        (offset + emitted) as usize
    } else {
        usize::MAX
    }
}

/// The answer with the cursor that continues it, where there is more.
pub open spec fn with_cursor(answer: JsonView, offset: usize, emitted: usize, count: usize) -> JsonView {
    if next_position(offset, emitted) < count {
        let cut = with_field(answer, "truncated"@, JsonView::Bool(true));
        if emitted > 0 {
            with_field(
                cut,
                "next_cursor"@,
                JsonView::Text(decimal(next_position(offset, emitted) as nat)),
            )
        } else {
            with_field(
                with_field(cut, "next_cursor"@, JsonView::Null),
                "reason"@,
                JsonView::Text("item_exceeds_output_limit; reduce max_chars_per_item"@),
            )
        }
    } else {
        answer
    }
}

/// Sets the cursor that continues an answer, where there is more.
pub fn set_cursor(result: &mut Json, offset: usize, emitted: usize, count: usize)
    requires
        old(result)@ is Object,
    ensures
        final(result)@ == with_cursor(old(result)@, offset, emitted, count),
{
    let next: usize = if offset <= usize::MAX - emitted {
        offset + emitted
    } else {
        usize::MAX
    };
    if next < count {
        result.set("truncated", Json::Bool(true));
        if emitted > 0 {
            result.set("next_cursor", Json::Text(decimal_text(next as u64)));
        } else {
            result.set("next_cursor", Json::Null);
            result.set("reason", Json::text("item_exceeds_output_limit; reduce max_chars_per_item"));
        }
    }
}

/// The part of a row that a page covers.
pub open spec fn page_of<A>(all: Seq<A>, offset: nat, limit: nat) -> Seq<A> {
    let start = if offset <= all.len() {
        offset as int
    } else {
        all.len() as int
    };
    let end = if start + limit <= all.len() {
        start + limit
    } else {
        all.len() as int
    };
    all.subrange(start, end)
}

/// One page of an answer: as many of the values as fit, and the cursor behind them.
pub open spec fn page_view(
    base: JsonView,
    field: Seq<char>,
    values: Seq<JsonView>,
    offset: usize,
    count: usize,
) -> JsonView {
    let emitted = shown_count(base, field, values);
    with_cursor(filled(base, field, values.take(emitted as int)), offset, emitted as usize, count)
}

/// What a row of values holds.
pub open spec fn values_view(values: Seq<Json>) -> Seq<JsonView> {
    values.map_values(|value: Json| value@)
}

/// An answer shows at most all values, and once one leaves no room nothing behind it is shown.
proof fn lemma_shown_count(base: JsonView, field: Seq<char>, values: Seq<JsonView>, n: int)
    requires
        0 <= n <= values.len(),
    ensures
        shown_count(base, field, values) <= values.len(),
        shown_count(base, field, values.take(n)) <= shown_count(base, field, values),
        shown_count(base, field, values.take(n)) < n ==> shown_count(base, field, values) == shown_count(
            base,
            field,
            values.take(n),
        ),
    decreases values.len(),
{
    if n < values.len() {
        lemma_shown_count(base, field, values.drop_last(), n);
        assert(values.drop_last().take(n) =~= values.take(n));
    } else {
        assert(values.take(n) =~= values);
        if values.len() > 0 {
            lemma_shown_count(base, field, values.drop_last(), values.len() - 1);
        }
    }
}

/// One page of an answer.
fn page(base: Json, field: &str, values: &Vec<Json>, offset: usize, count: usize) -> (answer: Json)
    requires
        base@ is Object,
    ensures
        answer@ == page_view(base@, field@, values_view(values@), offset, count),
{
    let mut result = base;
    let ghost empty = result@;
    let ghost views = values_view(values@);
    result.set(field, Json::array());
    let mut emitted: usize = 0;
    assert(views.take(0) =~= Seq::<JsonView>::empty());
    assert(views.take(views.len() as int) =~= views);
    while emitted < values.len()
        invariant_except_break
            shown_count(empty, field@, views.take(emitted as int)) == emitted,
        invariant
            views == values_view(values@),
            views.take(views.len() as int) == views,
            empty is Object,
            emitted <= values@.len(),
            result@ == filled(empty, field@, views.take(emitted as int)),
        ensures
            emitted == shown_count(empty, field@, views),
        decreases values@.len() - emitted,
    {
        let value = values[emitted].duplicate();
        proof {
            assert(views.take(emitted + 1) =~= views.take(emitted as int).push(value@));
            assert(views.take(emitted + 1).drop_last() =~= views.take(emitted as int));
            assert(fields_in(filled(result@, field@, views.take(emitted + 1))) =~= fields_in(
                filled(empty, field@, views.take(emitted + 1)),
            ));
            assert(items_in(result@, field@) =~= views.take(emitted as int));
            lemma_shown_count(empty, field@, views, emitted + 1);
        }
        if !push_bounded(&mut result, field, value) {
            break;
        }
        emitted = emitted + 1;
    }
    set_cursor(&mut result, offset, emitted, count);
    result
}

/// A row in its own order, or the last first.
pub open spec fn ordered<A>(all: Seq<A>, recent_first: bool) -> Seq<A> {
    if recent_first {
        all.reverse()
    } else {
        all
    }
}

/// Where a page that starts at `offset` starts in a row of `count`, and where it ends.
fn page_bounds(count: usize, offset: usize, limit: usize) -> (bounds: (usize, usize))
    ensures
        bounds.0 == if offset <= count {
            offset
        } else {
            count
        },
        bounds.1 == if bounds.0 + limit <= count {
            bounds.0 + limit
        } else {
            count as int
        },
{
    let start: usize = if offset <= count {
        offset
    } else {
        count
    };
    let end: usize = if limit <= count - start {
        start + limit
    } else {
        count
    };
    (start, end)
}

/// Which of `count` things stands at a place of their order.
fn place_in_order(count: usize, place: usize, recent_first: bool) -> (index: usize)
    requires
        place < count,
    ensures
        index < count,
        index == if recent_first {
            count - 1 - place
        } else {
            place as int
        },
{
    if recent_first {
        count - 1 - place
    } else {
        place
    }
}

/// What a listing says of a window.
pub open spec fn window_summary_view(window: WindowView) -> JsonView {
    JsonView::Object(
        map![
            "window_id"@ => JsonView::Text(window.window_id),
            "window_number"@ => unsigned_view(window.window_number),
            "context_window_id"@ => text_or_null(window.context_window_id),
            "item_count"@ => unsigned_view(window.item_count as u64),
            "readable_item_count"@ => unsigned_view(window.readable_item_count as u64),
            "opaque_item_count"@ => unsigned_view(window.opaque_item_count as u64),
        ],
    )
}

/// What a listing says of a window.
fn window_summary(window: &WindowSummary) -> (value: Json)
    ensures
        value@ == window_summary_view(window@),
{
    let mut value = Json::object();
    value.set("window_id", Json::text(window.window_id.as_str()));
    value.set("window_number", Json::unsigned(window.window_number));
    value.set("context_window_id", Json::optional_text(&window.context_window_id));
    value.set("item_count", Json::count(window.item_count));
    value.set("readable_item_count", Json::count(window.readable_item_count));
    value.set("opaque_item_count", Json::count(window.opaque_item_count));
    value
}

/// The values of the windows on the page that is asked for.
pub open spec fn windows_on_page(request: WindowsRequest, scan: ScanView) -> Seq<JsonView> {
    page_of(
        ordered(scan.windows, request.recent_first),
        request.offset as nat,
        request.limit as nat,
    ).map_values(|window: WindowView| window_summary_view(window))
}

/// The answer that lists windows.
pub open spec fn windows_answer(request: WindowsRequest, scan: ScanView) -> JsonView {
    page_view(
        scan_metadata_view(scan),
        "windows"@,
        windows_on_page(request, scan),
        request.offset,
        scan.windows.len() as usize,
    )
}

/// Lists windows.
pub fn list_windows(request: &WindowsRequest, scan: &ScanResult) -> (answer: Json)
    ensures
        answer@ == windows_answer(*request, scan@),
{
    let count: usize = scan.windows.len();
    let (start, end) = page_bounds(count, request.offset, request.limit);
    let mut values: Vec<Json> = Vec::new();
    let mut place: usize = start;
    let ghost all = ordered(scan@.windows, request.recent_first);
    while place < end
        invariant
            start <= place <= end <= count,
            count == scan.windows@.len(),
            all == ordered(scan@.windows, request.recent_first),
            values_view(values@) == all.subrange(start as int, place as int).map_values(
                |window: WindowView| window_summary_view(window),
            ),
        decreases end - place,
    {
        let index: usize = place_in_order(count, place, request.recent_first);
        assert(scan@.windows[index as int] == scan.windows@[index as int]@);
        assert(all[place as int] == scan@.windows[index as int]);
        let value = window_summary(&scan.windows[index]);
        let ghost before = values@;
        values.push(value);
        place = place + 1;
        assert(values_view(values@) =~= values_view(before).push(value@));
        assert(all.subrange(start as int, place as int) =~= all.subrange(start as int, place - 1).push(
            all[place - 1],
        ));
        assert(values_view(values@) =~= all.subrange(start as int, place as int).map_values(
            |window: WindowView| window_summary_view(window),
        ));
    }
    assert(values_view(values@) =~= windows_on_page(*request, scan@));
    page(scan_metadata(scan), "windows", &values, request.offset, count)
}

/// A filter lets a value through.
pub open spec fn lets_through(requested: Option<Seq<char>>, value: Option<Seq<char>>) -> bool {
    requested is None || requested == value
}

/// An entry passes the filters of a request.
pub open spec fn passes_filters(request: ItemsRequestView, entry: EntryView) -> bool {
    &&& lets_through(request.window_id, Some(entry.window_id))
    &&& lets_through(request.role, Some(entry.projection.role))
    &&& lets_through(request.tool_namespace, entry.projection.tool_namespace)
    &&& lets_through(request.tool_name, entry.projection.tool_name)
}

/// An entry is asked for: it passes the filters and its text holds the query, where there is one.
pub open spec fn wanted(request: ItemsRequestView, entry: EntryView) -> bool {
    &&& passes_filters(request, entry)
    &&& request.query matches Some(query) ==> (entry.projection.content matches Some(text) && occurs(
        text,
        query,
    ))
}

/// The entries that are asked for, in record order.
pub open spec fn wanted_entries(request: ItemsRequestView, scan: ScanView) -> Seq<EntryView> {
    scan.entries.filter(|entry: EntryView| wanted(request, entry))
}

/// Whether a filter lets a value through.
fn is_let_through(requested: &Option<String>, value: Option<&str>) -> (passes: bool)
    ensures
        passes == lets_through(
            opt_view(*requested),
            match value {
                Some(value) => Some(value@),
                None => None,
            },
        ),
{
    match requested {
        None => true,
        Some(requested) => match value {
            Some(value) => same_text(requested.as_str(), value),
            None => false,
        },
    }
}

/// The text that there is, borrowed.
fn borrowed(text: &Option<String>) -> (found: Option<&str>)
    ensures
        opt_view(*text) == (match found {
            Some(found) => Some(found@),
            None => None,
        }),
{
    match text {
        Some(text) => Some(text.as_str()),
        None => None,
    }
}

/// Whether an entry passes the filters of a request.
pub fn matches_filters(request: &ItemsRequest, entry: &HistoryEntry) -> (passes: bool)
    ensures
        passes == passes_filters(request@, entry@),
{
    is_let_through(&request.window_id, Some(entry.window_id.as_str())) && is_let_through(
        &request.role,
        Some(entry.projection.role.as_str()),
    ) && is_let_through(&request.tool_namespace, borrowed(&entry.projection.tool_namespace))
        && is_let_through(&request.tool_name, borrowed(&entry.projection.tool_name))
}

/// Whether an entry is asked for.
fn is_wanted(request: &ItemsRequest, entry: &HistoryEntry) -> (asked: bool)
    ensures
        asked == wanted(request@, entry@),
{
    if !matches_filters(request, entry) {
        return false;
    }
    match &request.query {
        None => true,
        Some(query) => match &entry.projection.content {
            Some(text) => contains(text.as_str(), query.as_str()),
            None => false,
        },
    }
}

/// The positions of the entries that are asked for.
fn select(request: &ItemsRequest, scan: &ScanResult) -> (selected: Vec<usize>)
    ensures
        forall|i: int| 0 <= i < selected@.len() ==> (#[trigger] selected@[i]) < scan.entries@.len(),
        selected@.map_values(|index: usize| scan@.entries[index as int]) == wanted_entries(request@, scan@),
{
    let mut selected: Vec<usize> = Vec::new();
    let mut index: usize = 0;
    let ghost entries = scan@.entries;
    let ghost pred = |entry: EntryView| wanted(request@, entry);
    reveal(Seq::filter);
    assert(entries.take(0) =~= Seq::<EntryView>::empty());
    while index < scan.entries.len()
        invariant
            index <= scan.entries@.len(),
            entries == scan@.entries,
            pred == (|entry: EntryView| wanted(request@, entry)),
            forall|i: int| 0 <= i < selected@.len() ==> (#[trigger] selected@[i]) < scan.entries@.len(),
            selected@.map_values(|index: usize| entries[index as int]) == entries.take(index as int).filter(pred),
        decreases scan.entries@.len() - index,
    {
        let ghost before = selected@;
        proof {
            assert(entries[index as int] == scan.entries@[index as int]@);
            assert(entries.take(index + 1) =~= entries.take(index as int).push(entries[index as int]));
            entries.take(index as int).lemma_filter_push(entries[index as int], pred);
        }
        if is_wanted(request, &scan.entries[index]) {
            selected.push(index);
            assert(selected@.map_values(|index: usize| entries[index as int]) =~= before.map_values(
                |index: usize| entries[index as int],
            ).push(entries[index as int]));
        }
        index = index + 1;
    }
    assert(entries.take(index as int) =~= entries);
    selected
}

/// The first place of `query` in `text`.
pub open spec fn first_match(text: Seq<char>, query: Seq<char>) -> Option<int> {
    if occurs(text, query) {
        Some(choose|at: int| first_at(text, query, at))
    } else {
        None
    }
}

/// There is one first place.
proof fn lemma_first_match(text: Seq<char>, query: Seq<char>, at: int)
    requires
        first_at(text, query, at),
    ensures
        first_match(text, query) == Some(at),
{
    let chosen = choose|at: int| first_at(text, query, at);
    assert(first_at(text, query, chosen));
    if chosen < at {
        assert(!crate::text::occurs_at(text, query, chosen));
    }
    if at < chosen {
        assert(!crate::text::occurs_at(text, query, at));
    }
}

/// Where the shown part of a text starts: a little before the first match of a search.
pub open spec fn excerpt_start(text: Seq<char>, query: Option<Seq<char>>) -> nat {
    match query {
        Some(query) => match first_match(text, query) {
            Some(at) => if at > HISTORY_SEARCH_LEAD_CHARS {
                (at - HISTORY_SEARCH_LEAD_CHARS) as nat
            } else {
                0
            },
            None => 0,
        },
        None => 0,
    }
}

/// How much of a text is shown.
pub open spec fn excerpt_limit(request: ItemsRequestView) -> usize {
    if request.query is Some {
        MAX_HISTORY_SEARCH_EXCERPT_CHARS
    } else {
        request.preview
    }
}

/// What a listing says of an entry: its metadata, and a part of its text where it has one.
pub open spec fn item_view(request: ItemsRequestView, entry: EntryView) -> JsonView {
    match entry.projection.content {
        None => entry_metadata_view(entry),
        Some(text) => {
            let start = excerpt_start(text, request.query);
            let limit = excerpt_limit(request) as nat;
            let shown = with_field(
                entry_metadata_view(entry),
                "truncated_content"@,
                JsonView::Text(char_range(text, start, limit)),
            );
            with_field(
                with_field(shown, "offset_chars"@, unsigned_view(start as u64)),
                "truncated"@,
                JsonView::Bool(
                    start > 0 || range_end(text, start, limit) < text.len()
                        || entry.projection.content_truncated,
                ),
            )
        },
    }
}

/// What a listing says of an entry.
fn item_json(request: &ItemsRequest, entry: &HistoryEntry) -> (value: Json)
    ensures
        value@ == item_view(request@, entry@),
{
    let mut value = entry_metadata(entry);
    if let Some(text) = &entry.projection.content {
        let mut start: usize = 0;
        let mut limit: usize = request.preview;
        if let Some(query) = &request.query {
            limit = MAX_HISTORY_SEARCH_EXCERPT_CHARS;
            if let Some(at) = find(text.as_str(), query.as_str()) {
                proof {
                    lemma_first_match(text@, query@, at as int);
                }
                if at > HISTORY_SEARCH_LEAD_CHARS {
                    start = at - HISTORY_SEARCH_LEAD_CHARS;
                }
            }
        }
        let (excerpt, _, more) = char_slice(text.as_str(), start, limit);
        value.set("truncated_content", Json::text(excerpt));
        value.set("offset_chars", Json::count(start));
        value.set("truncated", Json::Bool(start > 0 || more || entry.projection.content_truncated));
    }
    value
}

/// The values of the entries on the page that is asked for.
pub open spec fn items_on_page(request: ItemsRequestView, scan: ScanView) -> Seq<JsonView> {
    page_of(
        ordered(wanted_entries(request, scan), request.recent_first),
        request.offset as nat,
        request.limit as nat,
    ).map_values(|entry: EntryView| item_view(request, entry))
}

/// The answer that lists entries.
pub open spec fn items_answer(request: ItemsRequestView, scan: ScanView) -> JsonView {
    page_view(
        scan_metadata_view(scan),
        "items"@,
        items_on_page(request, scan),
        request.offset,
        wanted_entries(request, scan).len() as usize,
    )
}

/// Lists entries, those with the query in their text where there is one.
pub fn list_items(request: &ItemsRequest, scan: &ScanResult) -> (answer: Json)
    ensures
        answer@ == items_answer(request@, scan@),
{
    let selected = select(request, scan);
    let count: usize = selected.len();
    let ghost found = wanted_entries(request@, scan@);
    let ghost all = ordered(found, request.recent_first);
    assert(found.len() == count);
    let (start, end) = page_bounds(count, request.offset, request.limit);
    let mut values: Vec<Json> = Vec::new();
    let mut place: usize = start;
    while place < end
        invariant
            start <= place <= end <= count,
            count == selected@.len(),
            found == wanted_entries(request@, scan@),
            all == ordered(found, request.recent_first),
            forall|i: int| 0 <= i < selected@.len() ==> (#[trigger] selected@[i]) < scan.entries@.len(),
            selected@.map_values(|index: usize| scan@.entries[index as int]) == found,
            values_view(values@) == all.subrange(start as int, place as int).map_values(
                |entry: EntryView| item_view(request@, entry),
            ),
        decreases end - place,
    {
        let chosen: usize = place_in_order(count, place, request.recent_first);
        let index: usize = selected[chosen];
        assert(scan@.entries[index as int] == scan.entries@[index as int]@);
        assert(found[chosen as int] == scan@.entries[index as int]) by {
            assert(selected@.map_values(|index: usize| scan@.entries[index as int])[chosen as int]
                == scan@.entries[index as int]);
        }
        assert(all[place as int] == found[chosen as int]);
        let value = item_json(request, &scan.entries[index]);
        let ghost before = values@;
        values.push(value);
        place = place + 1;
        assert(values_view(values@) =~= values_view(before).push(value@));
        assert(all.subrange(start as int, place as int) =~= all.subrange(start as int, place - 1).push(
            all[place - 1],
        ));
        assert(values_view(values@) =~= all.subrange(start as int, place as int).map_values(
            |entry: EntryView| item_view(request@, entry),
        ));
    }
    assert(values_view(values@) =~= items_on_page(request@, scan@));
    page(scan_metadata(scan), "items", &values, request.offset, count)
}

/// The first entry with the given references.
pub open spec fn first_entry(entries: Seq<EntryView>, item_id: Seq<char>, window_id: Seq<char>) -> Option<
    EntryView,
>
    decreases entries.len(),
{
    if entries.len() == 0 {
        None
    } else if entries[0].item_id == item_id && entries[0].window_id == window_id {
        Some(entries[0])
    } else {
        first_entry(entries.drop_first(), item_id, window_id)
    }
}

/// The position of the first entry with the given references.
fn find_entry(scan: &ScanResult, item_id: &str, window_id: &str) -> (found: Option<usize>)
    ensures
        match found {
            Some(index) => index < scan.entries@.len() && first_entry(scan@.entries, item_id@, window_id@)
                == Some(scan.entries@[index as int]@),
            None => first_entry(scan@.entries, item_id@, window_id@) is None,
        },
{
    let mut index: usize = 0;
    let ghost entries = scan@.entries;
    assert(entries.skip(0) =~= entries);
    while index < scan.entries.len()
        invariant
            index <= scan.entries@.len(),
            entries == scan@.entries,
            first_entry(entries, item_id@, window_id@) == first_entry(
                entries.skip(index as int),
                item_id@,
                window_id@,
            ),
        decreases scan.entries@.len() - index,
    {
        assert(entries.skip(index as int)[0] == scan.entries@[index as int]@);
        if same_text(scan.entries[index].item_id.as_str(), item_id) && same_text(
            scan.entries[index].window_id.as_str(),
            window_id,
        ) {
            return Some(index);
        }
        assert(entries.skip(index as int).drop_first() =~= entries.skip(index + 1));
        index = index + 1;
    }
    None
}

/// The JSON text of an encrypted part.
pub open spec fn encrypted_part_view(part: Seq<char>) -> JsonView {
    JsonView::Object(
        map![
            "type"@ => JsonView::Text("encrypted_content"@),
            "encrypted_content"@ => JsonView::Text(part),
        ],
    )
}

/// The JSON text of encrypted parts.
pub open spec fn encrypted_parts_view(parts: Seq<Seq<char>>) -> JsonView {
    JsonView::Array(parts.map_values(|part: Seq<char>| encrypted_part_view(part)))
}

/// The encrypted parts, as parts of a tool's output.
pub open spec fn replayed(parts: Seq<Seq<char>>) -> Seq<OutputItemView> {
    parts.map_values(|part: Seq<char>| OutputItemView::EncryptedContent { encrypted_content: part })
}

/// The answer that replays encrypted parts: all of them, or none where they are too large.
pub open spec fn replay_answer(parts: Seq<Seq<char>>) -> LocalResultView {
    if json_size(encrypted_parts_view(parts)) <= MAX_HISTORY_RESULT_BYTES {
        LocalResultView::AgentMessageReplay(replayed(parts))
    } else {
        LocalResultView::Json(unavailable_view("encrypted_item_exceeds_replay_limit"@))
    }
}

/// Replays encrypted parts.
fn replay(parts: &Vec<String>) -> (answer: LocalHistoryNotesResult)
    ensures
        answer@ == replay_answer(texts_view(parts@)),
{
    let mut values: Vec<Json> = Vec::new();
    let mut items: Vec<FunctionCallOutputContentItem> = Vec::new();
    let ghost views = texts_view(parts@);
    let mut index: usize = 0;
    while index < parts.len()
        invariant
            index <= parts@.len(),
            views == texts_view(parts@),
            values@.len() == index,
            items@.len() == index,
            forall|i: int| 0 <= i < index ==> json_view(#[trigger] values@[i]) == encrypted_part_view(views[i]),
            forall|i: int|
                0 <= i < index ==> (#[trigger] items@[i])@ == (OutputItemView::EncryptedContent {
                    encrypted_content: views[i],
                }),
        decreases parts@.len() - index,
    {
        assert(views[index as int] == parts@[index as int]@);
        let mut value = Json::object();
        value.set("type", Json::text("encrypted_content"));
        value.set("encrypted_content", Json::text(parts[index].as_str()));
        values.push(value);
        items.push(
            FunctionCallOutputContentItem::EncryptedContent { encrypted_content: parts[index].clone() },
        );
        index = index + 1;
    }
    let whole = Json::Array(values);
    proof {
        lemma_items_view(values@);
        assert(items_view(values@) =~= views.map_values(|part: Seq<char>| encrypted_part_view(part)));
        assert(output_items_view(items@) =~= replayed(views));
    }
    if serialized_len(&whole) <= MAX_HISTORY_RESULT_BYTES {
        LocalHistoryNotesResult::AgentMessageReplay(items)
    } else {
        LocalHistoryNotesResult::Json(unavailable("encrypted_item_exceeds_replay_limit"))
    }
}

/// The position behind a part of a text.
pub open spec fn position_behind(offset: usize, count: nat) -> u64 {
    if offset + count <= usize::MAX {
        (offset + count) as u64
    } else {
        usize::MAX as u64
    }
}

/// The answer that shows at most `limit` characters of an entry's text from `offset` on.
pub open spec fn part_view(entry: EntryView, text: Seq<char>, offset: usize, limit: usize) -> JsonView {
    let content = char_range(text, offset as nat, limit as nat);
    let more = range_end(text, offset as nat, limit as nat) < text.len();
    let shown = with_field(entry_metadata_view(entry), "content"@, JsonView::Text(content));
    let placed = with_field(
        with_field(shown, "offset_chars"@, unsigned_view(offset as u64)),
        "next_offset_chars"@,
        unsigned_view(position_behind(offset, content.len())),
    );
    with_field(
        with_field(placed, "truncated"@, JsonView::Bool(more || entry.projection.content_truncated)),
        "status"@,
        JsonView::Text("ok"@),
    )
}

/// The largest of `limit`, its half, the half of that and so on with which the answer is small
/// enough.
pub open spec fn fitting_limit(entry: EntryView, text: Seq<char>, offset: usize, limit: usize) -> Option<usize>
    decreases limit,
{
    if json_size(part_view(entry, text, offset, limit)) <= MAX_HISTORY_RESULT_BYTES {
        Some(limit)
    } else if limit < 2 {
        None
    } else {
        fitting_limit(entry, text, offset, limit / 2)
    }
}

/// The answer that reads a part of an entry's text.
pub open spec fn text_answer(entry: EntryView, text: Seq<char>, offset: usize, limit: usize) -> JsonView {
    match fitting_limit(entry, text, offset, limit) {
        Some(limit) => part_view(entry, text, offset, limit),
        None => unavailable_view("item_metadata_exceeds_output_limit"@),
    }
}

/// Reads a part of an entry's text.
fn read_text(entry: &HistoryEntry, text: &str, offset: usize, limit: usize) -> (answer: Json)
    ensures
        answer@ == text_answer(entry@, text@, offset, limit),
{
    let mut current: usize = limit;
    loop
        invariant
            fitting_limit(entry@, text@, offset, limit) == fitting_limit(entry@, text@, offset, current),
        decreases current,
    {
        let (content, consumed, more) = char_slice(text, offset, current);
        let next: usize = if offset <= usize::MAX - consumed {
            offset + consumed
        } else {
            usize::MAX
        };
        let mut result = entry_metadata(entry);
        result.set("content", Json::text(content));
        result.set("offset_chars", Json::count(offset));
        result.set("next_offset_chars", Json::count(next));
        result.set("truncated", Json::Bool(more || entry.projection.content_truncated));
        result.set("status", Json::text("ok"));
        if serialized_len(&result) <= MAX_HISTORY_RESULT_BYTES {
            return result;
        }
        if current < 2 {
            return unavailable("item_metadata_exceeds_output_limit");
        }
        current = current / 2;
    }
}

/// The answer that reads an entry.
pub open spec fn entry_answer(request: ReadRequestView, entry: EntryView) -> LocalResultView {
    if replayable(entry) {
        if request.offset != 0 {
            LocalResultView::Json(
                invalid_argument_view("offset_chars"@, "must be zero for an encrypted agent message"@),
            )
        } else {
            replay_answer(entry.projection.agent_message_encrypted_parts)
        }
    } else {
        match entry.projection.content {
            None => LocalResultView::Json(
                with_field(entry_metadata_view(entry), "status"@, JsonView::Text("unavailable"@)),
            ),
            Some(text) => LocalResultView::Json(text_answer(entry, text, request.offset, request.limit)),
        }
    }
}

/// The answer that says that no scanned entry has the references.
pub open spec fn not_found_view(scan: ScanView) -> JsonView {
    with_field(
        with_field(scan_metadata_view(scan), "status"@, JsonView::Text("unavailable"@)),
        "reason"@,
        JsonView::Text("item_not_found_in_scanned_history"@),
    )
}

/// The answer that reads an item.
pub open spec fn read_answer(request: ReadRequestView, scan: ScanView) -> LocalResultView {
    match first_entry(scan.entries, request.item_id, request.window_id) {
        None => LocalResultView::Json(not_found_view(scan)),
        Some(entry) => entry_answer(request, entry),
    }
}

/// Reads an item: a part of its text, or the encrypted parts of an agent message as a whole.
pub fn read_item(request: &ReadRequest, scan: &ScanResult) -> (answer: LocalHistoryNotesResult)
    ensures
        answer@ == read_answer(request@, scan@),
{
    let index: usize = match find_entry(scan, request.item_id.as_str(), request.window_id.as_str()) {
        Some(index) => index,
        None => {
            let mut result = scan_metadata(scan);
            result.set("status", Json::text("unavailable"));
            result.set("reason", Json::text("item_not_found_in_scanned_history"));
            return LocalHistoryNotesResult::Json(result);
        },
    };
    let entry = &scan.entries[index];
    if entry.projection.agent_message_encrypted_parts.len() > 0 {
        if request.offset != 0 {
            return LocalHistoryNotesResult::Json(
                invalid_argument("offset_chars", "must be zero for an encrypted agent message"),
            );
        }
        return replay(&entry.projection.agent_message_encrypted_parts);
    }
    match &entry.projection.content {
        None => {
            let mut result = entry_metadata(entry);
            result.set("status", Json::text("unavailable"));
            LocalHistoryNotesResult::Json(result)
        },
        Some(text) => LocalHistoryNotesResult::Json(
            read_text(entry, text.as_str(), request.offset, request.limit),
        ),
    }
}

/// A listing that leaves room for its cursor stays within the limit once the cursor is set.
proof fn lemma_cursor_fits(answer: JsonView, offset: usize, emitted: usize, count: usize)
    requires
        answer is Object,
        fields_in(answer).dom().finite(),
        field_of(answer, "truncated"@) matches Some(JsonView::Bool(_)),
        field_of(answer, "next_cursor"@) == Some(JsonView::Null),
        field_of(answer, "reason"@) is None,
        leaves_room(answer),
    ensures
        json_size(with_cursor(answer, offset, emitted, count)) <= MAX_HISTORY_RESULT_BYTES,
{
    let next = next_position(offset, emitted);
    if next < count {
        reveal_strlit("truncated");
        reveal_strlit("next_cursor");
        reveal_strlit("reason");
        reveal_strlit("item_exceeds_output_limit; reduce max_chars_per_item");
        lemma_size_with_field(answer, "truncated"@, JsonView::Bool(true));
        let cut = with_field(answer, "truncated"@, JsonView::Bool(true));
        assert("truncated"@ != "next_cursor"@) by {
            assert("truncated"@.len() != "next_cursor"@.len());
        }
        assert("truncated"@ != "reason"@) by {
            assert("truncated"@.len() != "reason"@.len());
        }
        assert("next_cursor"@ != "reason"@) by {
            assert("next_cursor"@.len() != "reason"@.len());
        }
        if emitted > 0 {
            lemma_decimal_size(next as nat);
            lemma_size_with_field(cut, "next_cursor"@, JsonView::Text(decimal(next as nat)));
        } else {
            let plain = with_field(cut, "next_cursor"@, JsonView::Null);
            lemma_size_with_field(cut, "next_cursor"@, JsonView::Null);
            let reason = "item_exceeds_output_limit; reduce max_chars_per_item"@;
            lemma_size_with_field(plain, "reason"@, JsonView::Text(reason));
            lemma_plain_size("reason"@);
            lemma_plain_size(reason);
        }
    }
}

/// The names in a listing's metadata are not those of its rows.
proof fn lemma_listing_names()
    ensures
        "windows"@ != "truncated"@,
        "windows"@ != "next_cursor"@,
        "windows"@ != "reason"@,
        "items"@ != "truncated"@,
        "items"@ != "next_cursor"@,
        "items"@ != "reason"@,
        "truncated"@ != "next_cursor"@,
        "truncated"@ != "reason"@,
        "next_cursor"@ != "reason"@,
{
    reveal_strlit("windows");
    reveal_strlit("items");
    reveal_strlit("truncated");
    reveal_strlit("next_cursor");
    reveal_strlit("reason");
    assert("windows"@.len() == 7 && "items"@.len() == 5 && "truncated"@.len() == 9 && "next_cursor"@.len() == 11
        && "reason"@.len() == 6);
}

/// A listing's metadata has a place for the cursor and no reason yet.
proof fn lemma_metadata_fields(scan: ScanView)
    ensures
        fields_in(scan_metadata_view(scan)).dom().finite(),
        field_of(scan_metadata_view(scan), "truncated"@) == Some(JsonView::Bool(scan.info.truncated)),
        field_of(scan_metadata_view(scan), "next_cursor"@) == Some(JsonView::Null),
        field_of(scan_metadata_view(scan), "reason"@) is None,
{
    lemma_listing_names();
    reveal_strlit("status");
    reveal_strlit("scan_complete");
    reveal_strlit("records_scanned");
    reveal_strlit("opaque_records");
    reveal_strlit("corrupt");
    reveal_strlit("errors");
    reveal_strlit("truncated");
    reveal_strlit("next_cursor");
    reveal_strlit("reason");
    assert("reason"@[0] == 'r' && "status"@[0] == 's' && "errors"@[0] == 'e');
    assert("scan_complete"@.len() == 13 && "records_scanned"@.len() == 15 && "opaque_records"@.len() == 14
        && "corrupt"@.len() == 7 && "reason"@.len() == 6 && "truncated"@.len() == 9 && "next_cursor"@.len()
        == 11);
}

/// What is shown leaves room, unless nothing is.
proof fn lemma_shown_leaves_room(base: JsonView, field: Seq<char>, values: Seq<JsonView>)
    ensures
        shown_count(base, field, values) <= values.len(),
        shown_count(base, field, values) > 0 ==> leaves_room(
            filled(base, field, values.take(shown_count(base, field, values) as int)),
        ),
    decreases values.len(),
{
    if values.len() > 0 {
        lemma_shown_leaves_room(base, field, values.drop_last());
        let shown = shown_count(base, field, values);
        if shown == values.len() {
            assert(values.take(shown as int) =~= values);
        } else {
            assert(values.drop_last().take(shown as int) =~= values.take(shown as int));
        }
    }
}

/// A listing stays within the limit exactly where it does so with nothing listed.
proof fn lemma_listing_fits(
    scan: ScanView,
    field: Seq<char>,
    values: Seq<JsonView>,
    offset: usize,
    count: usize,
)
    requires
        field == "windows"@ || field == "items"@,
    ensures
        json_size(page_view(scan_metadata_view(scan), field, values, offset, count))
            <= MAX_HISTORY_RESULT_BYTES <==> json_size(
            page_view(scan_metadata_view(scan), field, Seq::empty(), offset, count),
        ) <= MAX_HISTORY_RESULT_BYTES,
{
    let base = scan_metadata_view(scan);
    let shown = shown_count(base, field, values);
    let nothing = Seq::<JsonView>::empty();
    lemma_shown_leaves_room(base, field, values);
    lemma_listing_names();
    lemma_metadata_fields(scan);
    assert(nothing.take(0) =~= nothing);
    assert(values.take(0) =~= nothing);
    if shown > 0 {
        let listed = filled(base, field, values.take(shown as int));
        lemma_cursor_fits(listed, offset, shown as usize, count);
        lemma_size_with_field(base, field, JsonView::Array(values.take(shown as int)));
        lemma_size_with_field(listed, field, JsonView::Array(nothing));
        assert(fields_in(filled(listed, field, nothing)) =~= fields_in(filled(base, field, nothing)));
        lemma_cursor_fits(filled(base, field, nothing), offset, 0, count);
    }
}

/// The answer `answer` is within the limit on results.
pub open spec fn history_fits(answer: JsonView) -> bool {
    json_size(answer) <= MAX_HISTORY_RESULT_BYTES
}

/// A list of windows stays within the limit on results, whatever windows there are, unless what it says
/// of the scan alone is above the limit.
pub proof fn law_windows_answer_fits(request: WindowsRequest, scan: ScanView)
    ensures
        history_fits(windows_answer(request, scan)) <==> history_fits(
            page_view(
                scan_metadata_view(scan),
                "windows"@,
                Seq::empty(),
                request.offset,
                scan.windows.len() as usize,
            ),
        ),
{
    lemma_listing_fits(
        scan,
        "windows"@,
        windows_on_page(request, scan),
        request.offset,
        scan.windows.len() as usize,
    );
}

/// A list of items stays within the limit on results, whatever items there are, unless what it says of
/// the scan alone is above the limit.
pub proof fn law_items_answer_fits(request: ItemsRequestView, scan: ScanView)
    ensures
        history_fits(items_answer(request, scan)) <==> history_fits(
            page_view(
                scan_metadata_view(scan),
                "items"@,
                Seq::empty(),
                request.offset,
                wanted_entries(request, scan).len() as usize,
            ),
        ),
{
    lemma_listing_fits(
        scan,
        "items"@,
        items_on_page(request, scan),
        request.offset,
        wanted_entries(request, scan).len() as usize,
    );
}

/// All that a listing of windows can show, from the first page on.
pub open spec fn windows_to_list(request: WindowsRequest, scan: ScanView) -> Seq<JsonView> {
    ordered(scan.windows, request.recent_first).map_values(|window: WindowView| window_summary_view(window))
}

/// All that a listing of items can show, from the first page on.
pub open spec fn items_to_list(request: ItemsRequestView, scan: ScanView) -> Seq<JsonView> {
    ordered(wanted_entries(request, scan), request.recent_first).map_values(
        |entry: EntryView| item_view(request, entry),
    )
}

/// The page `answer` of a listing shows the values of `all` from `offset` on. Its cursor, where it has
/// one, is the position behind the last that it shows, and it shows at least one; without a cursor it
/// shows the last one, or none because the next one is too large by itself.
pub open spec fn continues(answer: JsonView, field: Seq<char>, all: Seq<JsonView>, offset: usize) -> bool {
    let shown = items_in(answer, field);
    &&& offset < all.len() ==> shown == all.subrange(offset as int, offset + shown.len()) && offset + shown.len()
        <= all.len()
    &&& offset >= all.len() ==> shown.len() == 0
    &&& match text_field(answer, "next_cursor"@) {
        Some(cursor) => {
            &&& shown.len() > 0
            &&& offset + shown.len() < all.len()
            &&& parsed_decimal(cursor, usize::MAX as nat) == Some((offset + shown.len()) as nat)
        },
        None => offset + shown.len() >= all.len() || (shown.len() == 0 && text_field(answer, "reason"@)
            is Some),
    }
}

/// A page continues where its cursor says.
proof fn lemma_page_continues(
    scan: ScanView,
    field: Seq<char>,
    all: Seq<JsonView>,
    offset: usize,
    limit: usize,
    count: usize,
)
    requires
        field == "windows"@ || field == "items"@,
        all.len() == count,
    ensures
        continues(
            page_view(scan_metadata_view(scan), field, page_of(all, offset as nat, limit as nat), offset, count),
            field,
            all,
            offset,
        ),
{
    let base = scan_metadata_view(scan);
    let values = page_of(all, offset as nat, limit as nat);
    let emitted = shown_count(base, field, values);
    lemma_shown_leaves_room(base, field, values);
    lemma_listing_names();
    lemma_metadata_fields(scan);
    let answer = page_view(base, field, values, offset, count);
    let shown = values.take(emitted as int);
    assert(items_in(answer, field) == shown);
    if offset < all.len() {
        assert(shown =~= all.subrange(offset as int, offset + emitted));
    }
    let next = next_position(offset, emitted as usize);
    if next < count && emitted > 0 {
        law_decimal_round_trip(next as nat, usize::MAX as nat);
    }
}

/// Pages of windows tile: each cursor leads to the window behind the last that was shown.
pub proof fn law_window_pages_tile(request: WindowsRequest, scan: ScanView)
    requires
        scan.windows.len() <= usize::MAX,
    ensures
        continues(
            windows_answer(request, scan),
            "windows"@,
            windows_to_list(request, scan),
            request.offset,
        ),
{
    let all = windows_to_list(request, scan);
    assert(windows_on_page(request, scan) =~= page_of(all, request.offset as nat, request.limit as nat));
    lemma_page_continues(
        scan,
        "windows"@,
        all,
        request.offset,
        request.limit,
        scan.windows.len() as usize,
    );
}

/// Pages of items tile: each cursor leads to the item behind the last that was shown.
pub proof fn law_item_pages_tile(request: ItemsRequestView, scan: ScanView)
    requires
        scan.entries.len() <= usize::MAX,
    ensures
        continues(
            items_answer(request, scan),
            "items"@,
            items_to_list(request, scan),
            request.offset,
        ),
{
    let found = wanted_entries(request, scan);
    let all = items_to_list(request, scan);
    scan.entries.lemma_filter_len(|entry: EntryView| wanted(request, entry));
    assert(items_on_page(request, scan) =~= page_of(all, request.offset as nat, request.limit as nat));
    lemma_page_continues(scan, "items"@, all, request.offset, request.limit, found.len() as usize);
}

/// The request for windows from another position on.
pub open spec fn windows_from(request: WindowsRequest, offset: usize) -> WindowsRequest {
    WindowsRequest { offset, ..request }
}

/// The request for items from another position on.
pub open spec fn items_from(request: ItemsRequestView, offset: usize) -> ItemsRequestView {
    ItemsRequestView { offset, ..request }
}

/// A cursor that is handed back asks for the same windows from its position on.
pub proof fn law_window_cursor_leads_on(arguments: JsonView, next: usize)
    requires
        arguments is Object,
        windows_request(arguments) is Ok,
    ensures
        windows_request(with_field(arguments, "cursor"@, JsonView::Text(decimal(next as nat)))) matches Ok(request)
            && request == windows_from(windows_request(arguments)->Ok_0, next),
{
    lemma_cursor_name();
    law_decimal_round_trip(next as nat, usize::MAX as nat);
}

/// A cursor that is handed back asks for the same items from its position on.
pub proof fn law_item_cursor_leads_on(arguments: JsonView, query: Option<Seq<char>>, next: usize)
    requires
        arguments is Object,
        items_request(arguments, query) is Ok,
    ensures
        items_request(with_field(arguments, "cursor"@, JsonView::Text(decimal(next as nat))), query) matches Ok(
            request,
        ) && request == items_from(items_request(arguments, query)->Ok_0, next),
{
    lemma_cursor_name();
    law_decimal_round_trip(next as nat, usize::MAX as nat);
}

/// No other argument is named as the cursor.
proof fn lemma_cursor_name()
    ensures
        "cursor"@ != "limit"@,
        "cursor"@ != "max_chars_per_item"@,
        "cursor"@ != "recent_first"@,
        "cursor"@ != "window_id"@,
        "cursor"@ != "role"@,
        "cursor"@ != "tool_namespace"@,
        "cursor"@ != "tool_name"@,
{
    reveal_strlit("cursor");
    reveal_strlit("limit");
    reveal_strlit("max_chars_per_item");
    reveal_strlit("recent_first");
    reveal_strlit("window_id");
    reveal_strlit("role");
    reveal_strlit("tool_namespace");
    reveal_strlit("tool_name");
    assert("cursor"@.len() == 6 && "limit"@.len() == 5 && "max_chars_per_item"@.len() == 18
        && "recent_first"@.len() == 12 && "window_id"@.len() == 9 && "role"@.len() == 4
        && "tool_namespace"@.len() == 14 && "tool_name"@.len() == 9);
}

/// What a listing shows page by page: the items of one page, then those from its cursor on.
pub open spec fn items_listed_on(request: ItemsRequestView, scan: ScanView) -> Seq<JsonView>
    decreases scan.entries.len() - request.offset,
{
    let answer = items_answer(request, scan);
    let shown = items_in(answer, "items"@);
    match text_field(answer, "next_cursor"@) {
        None => shown,
        Some(cursor) => match parsed_decimal(cursor, usize::MAX as nat) {
            Some(next) => if request.offset < next < scan.entries.len() {
                shown + items_listed_on(items_from(request, next as usize), scan)
            } else {
                shown
            },
            None => shown,
        },
    }
}

/// The position of a request does not decide what there is to list.
proof fn lemma_items_to_list(request: ItemsRequestView, scan: ScanView, offset: usize)
    ensures
        items_to_list(items_from(request, offset), scan) == items_to_list(request, scan),
{
    let other = items_from(request, offset);
    assert((|entry: EntryView| wanted(other, entry)) =~= (|entry: EntryView| wanted(request, entry)));
    assert((|entry: EntryView| item_view(other, entry)) =~= (|entry: EntryView| item_view(request, entry)));
}

/// Page by page a listing shows all items that are asked for, each once and in order. It ends early only
/// before an item that is too large for a page of its own, and says so.
pub proof fn law_pages_list_all_items(request: ItemsRequestView, scan: ScanView)
    requires
        scan.entries.len() <= usize::MAX,
        request.offset <= items_to_list(request, scan).len(),
    ensures
        items_listed_on(request, scan).is_prefix_of(items_to_list(request, scan).skip(request.offset as int)),
        items_listed_on(request, scan) == items_to_list(request, scan).skip(request.offset as int)
            || text_field(
            items_answer(
                items_from(request, (request.offset + items_listed_on(request, scan).len()) as usize),
                scan,
            ),
            "reason"@,
        ) is Some,
    decreases scan.entries.len() - request.offset,
{
    let answer = items_answer(request, scan);
    let all = items_to_list(request, scan);
    let shown = items_in(answer, "items"@);
    let rest = all.skip(request.offset as int);
    law_item_pages_tile(request, scan);
    scan.entries.lemma_filter_len(|entry: EntryView| wanted(request, entry));
    if request.offset < all.len() {
        assert(shown =~= rest.take(shown.len() as int));
    } else {
        assert(shown =~= rest);
    }
    if let Some(cursor) = text_field(answer, "next_cursor"@) {
        let next = (request.offset + shown.len()) as usize;
        lemma_items_to_list(request, scan, next);
        law_pages_list_all_items(items_from(request, next), scan);
        let further = items_listed_on(items_from(request, next), scan);
        assert(items_listed_on(request, scan) == shown + further);
        assert(shown + all.skip(next as int) =~= rest);
        assert(shown + further =~= rest.take((shown + further).len() as int));
        assert(items_from(items_from(request, next), (next + further.len()) as usize) == items_from(
            request,
            (request.offset + (shown + further).len()) as usize,
        ));
    } else if request.offset + shown.len() >= all.len() {
        assert(shown =~= rest);
    } else {
        assert(items_from(request, request.offset) == request);
    }
}

/// What a listing shows page by page: the windows of one page, then those from its cursor on.
pub open spec fn windows_listed_on(request: WindowsRequest, scan: ScanView) -> Seq<JsonView>
    decreases scan.windows.len() - request.offset,
{
    let answer = windows_answer(request, scan);
    let shown = items_in(answer, "windows"@);
    match text_field(answer, "next_cursor"@) {
        None => shown,
        Some(cursor) => match parsed_decimal(cursor, usize::MAX as nat) {
            Some(next) => if request.offset < next < scan.windows.len() {
                shown + windows_listed_on(windows_from(request, next as usize), scan)
            } else {
                shown
            },
            None => shown,
        },
    }
}

/// Page by page a listing shows all windows, each once and in order. It ends early only before a window
/// that is too large for a page of its own, and says so.
pub proof fn law_pages_list_all_windows(request: WindowsRequest, scan: ScanView)
    requires
        scan.windows.len() <= usize::MAX,
        request.offset <= scan.windows.len(),
    ensures
        windows_listed_on(request, scan).is_prefix_of(windows_to_list(request, scan).skip(request.offset as int)),
        windows_listed_on(request, scan) == windows_to_list(request, scan).skip(request.offset as int)
            || text_field(
            windows_answer(
                windows_from(request, (request.offset + windows_listed_on(request, scan).len()) as usize),
                scan,
            ),
            "reason"@,
        ) is Some,
    decreases scan.windows.len() - request.offset,
{
    let answer = windows_answer(request, scan);
    let all = windows_to_list(request, scan);
    let shown = items_in(answer, "windows"@);
    let rest = all.skip(request.offset as int);
    law_window_pages_tile(request, scan);
    if request.offset < all.len() {
        assert(shown =~= rest.take(shown.len() as int));
    } else {
        assert(shown =~= rest);
    }
    if let Some(cursor) = text_field(answer, "next_cursor"@) {
        let next = (request.offset + shown.len()) as usize;
        law_pages_list_all_windows(windows_from(request, next), scan);
        let further = windows_listed_on(windows_from(request, next), scan);
        assert(windows_listed_on(request, scan) == shown + further);
        assert(shown + all.skip(next as int) =~= rest);
        assert(shown + further =~= rest.take((shown + further).len() as int));
    } else if request.offset + shown.len() >= all.len() {
        assert(shown =~= rest);
    } else {
        assert(windows_from(request, request.offset) == request);
    }
}

/// A search shows its match: the part of a text that it shows holds the query, unless the query reaches
/// beyond it.
pub proof fn law_excerpt_shows_match(text: Seq<char>, query: Seq<char>)
    requires
        occurs(text, query),
        first_match(text, query)->0 + query.len() <= excerpt_start(text, Some(query))
            + MAX_HISTORY_SEARCH_EXCERPT_CHARS,
    ensures
        occurs(
            char_range(text, excerpt_start(text, Some(query)), MAX_HISTORY_SEARCH_EXCERPT_CHARS as nat),
            query,
        ),
{
    let somewhere = choose|at: int| crate::text::occurs_at(text, query, at);
    let at = lemma_first_exists(text, query, somewhere);
    lemma_first_match(text, query, at);
    let start = excerpt_start(text, Some(query));
    let excerpt = char_range(text, start, MAX_HISTORY_SEARCH_EXCERPT_CHARS as nat);
    assert(excerpt.subrange(at - start, at - start + query.len()) =~= text.subrange(at, at + query.len()));
    assert(crate::text::occurs_at(excerpt, query, at - start));
}

/// What stands somewhere has a first place.
proof fn lemma_first_exists(text: Seq<char>, query: Seq<char>, somewhere: int) -> (at: int)
    requires
        crate::text::occurs_at(text, query, somewhere),
    ensures
        first_at(text, query, at),
        at <= somewhere,
    decreases somewhere,
{
    if exists|earlier: int| earlier < somewhere && crate::text::occurs_at(text, query, earlier) {
        let earlier = choose|earlier: int| earlier < somewhere && crate::text::occurs_at(text, query, earlier);
        lemma_first_exists(text, query, earlier)
    } else {
        somewhere
    }
}

/// The entry with its encrypted parts blotted out.
pub open spec fn veiled(entry: EntryView) -> EntryView {
    EntryView {
        projection: ProjectedView {
            agent_message_encrypted_parts: if replayable(entry) {
                seq![Seq::empty()]
            } else {
                Seq::empty()
            },
            ..entry.projection
        },
        ..entry
    }
}

/// The scan with the encrypted parts of its entries blotted out.
pub open spec fn veiled_scan(scan: ScanView) -> ScanView {
    ScanView { entries: scan.entries.map_values(|entry: EntryView| veiled(entry)), ..scan }
}

/// The entries that are asked for are the same, veiled or not.
proof fn lemma_veiled_filter(request: ItemsRequestView, entries: Seq<EntryView>)
    ensures
        entries.map_values(|entry: EntryView| veiled(entry)).filter(|entry: EntryView| wanted(request, entry))
            == entries.filter(|entry: EntryView| wanted(request, entry)).map_values(
            |entry: EntryView| veiled(entry),
        ),
    decreases entries.len(),
{
    reveal(Seq::filter);
    let veil = |entry: EntryView| veiled(entry);
    let pred = |entry: EntryView| wanted(request, entry);
    if entries.len() > 0 {
        lemma_veiled_filter(request, entries.drop_last());
        assert(entries.map_values(veil).drop_last() =~= entries.drop_last().map_values(veil));
        let rest = entries.drop_last().filter(pred);
        assert(rest.push(entries.last()).map_values(veil) =~= rest.map_values(veil).push(veiled(entries.last())));
    } else {
        assert(entries.map_values(veil).filter(pred) =~= entries.filter(pred).map_values(veil));
    }
}

/// What encrypted parts hold never shows in a listing or a search: the answer is the same with all of
/// them blotted out.
pub proof fn law_listings_hide_encrypted_parts(request: ItemsRequestView, scan: ScanView)
    ensures
        items_answer(request, veiled_scan(scan)) == items_answer(request, scan),
{
    let hidden = veiled_scan(scan);
    let veil = |entry: EntryView| veiled(entry);
    lemma_veiled_filter(request, scan.entries);
    let found = wanted_entries(request, scan);
    assert(wanted_entries(request, hidden) == found.map_values(veil));
    assert(ordered(found.map_values(veil), request.recent_first) =~= ordered(found, request.recent_first).map_values(
        veil,
    ));
    assert forall|entry: EntryView| #[trigger] item_view(request, veiled(entry)) == item_view(request, entry) by {
        assert(entry_metadata_view(veiled(entry)) == entry_metadata_view(entry));
    }
    assert(items_on_page(request, hidden) =~= items_on_page(request, scan));
    assert(shows_everything(hidden) == shows_everything(scan)) by {
        if shows_everything(hidden) {
            assert forall|i: int| 0 <= i < scan.entries.len() implies !(
            #[trigger] scan.entries[i]).projection.content_truncated by {
                assert(hidden.entries[i] == veiled(scan.entries[i]));
            }
        }
    }
}

/// The limit that is used is no larger than the one that was asked for, and not zero.
proof fn lemma_fitting_limit(entry: EntryView, text: Seq<char>, offset: usize, limit: usize)
    requires
        limit > 0,
    ensures
        fitting_limit(entry, text, offset, limit) matches Some(used) ==> 0 < used <= limit && json_size(
            part_view(entry, text, offset, used),
        ) <= MAX_HISTORY_RESULT_BYTES,
    decreases limit,
{
    if json_size(part_view(entry, text, offset, limit)) > MAX_HISTORY_RESULT_BYTES && limit >= 2 {
        lemma_fitting_limit(entry, text, offset, limit / 2);
    }
}

/// The names in an answer that reads a text differ.
proof fn lemma_read_names()
    ensures
        "content"@ != "offset_chars"@,
        "content"@ != "next_offset_chars"@,
        "content"@ != "truncated"@,
        "content"@ != "status"@,
        "next_offset_chars"@ != "truncated"@,
        "next_offset_chars"@ != "status"@,
        "truncated"@ != "status"@,
{
    reveal_strlit("content");
    reveal_strlit("offset_chars");
    reveal_strlit("next_offset_chars");
    reveal_strlit("truncated");
    reveal_strlit("status");
    assert("content"@.len() == 7 && "offset_chars"@.len() == 12 && "next_offset_chars"@.len() == 17
        && "truncated"@.len() == 9 && "status"@.len() == 6);
}

/// An answer that shows text stays within the limit on results. It shows the characters from the
/// offset on, no more than were asked for, and says where to go on: right behind them.
pub proof fn law_read_shows_text_in_order(entry: EntryView, text: Seq<char>, offset: usize, limit: usize)
    requires
        limit > 0,
        text.len() <= usize::MAX,
        offset <= text.len(),
        fitting_limit(entry, text, offset, limit) is Some,
    ensures
        ({
            let answer = text_answer(entry, text, offset, limit);
            let used = fitting_limit(entry, text, offset, limit)->0;
            &&& json_size(answer) <= MAX_HISTORY_RESULT_BYTES
            &&& 0 < used <= limit
            &&& text_field(answer, "content"@) == Some(char_range(text, offset as nat, used as nat))
            &&& field_of(answer, "next_offset_chars"@) == Some(
                unsigned_view(range_end(text, offset as nat, used as nat) as u64),
            )
            &&& flag_field(answer, "truncated"@) == (range_end(text, offset as nat, used as nat) < text.len()
                || entry.projection.content_truncated)
        }),
{
    lemma_fitting_limit(entry, text, offset, limit);
    lemma_read_names();
}

/// A text read part by part: the part that an answer shows, then those from the position behind it on.
pub open spec fn read_on(entry: EntryView, text: Seq<char>, offset: usize, limit: usize) -> Seq<char>
    decreases text.len() - offset,
{
    let answer = text_answer(entry, text, offset, limit);
    match text_field(answer, "content"@) {
        None => Seq::empty(),
        Some(content) => match field_of(answer, "next_offset_chars"@) {
            Some(JsonView::Number(NumberView::Unsigned(next))) => if offset < next < text.len() {
                content + read_on(entry, text, next as usize, limit)
            } else {
                content
            },
            _ => content,
        },
    }
}

/// Long texts can be read whole in parts: the parts, read on from where each ends, are the text from the
/// offset on. They end early only before a character that is too much for one answer together with the
/// references of the entry.
pub proof fn law_parts_make_the_text(entry: EntryView, text: Seq<char>, offset: usize, limit: usize)
    requires
        limit > 0,
        text.len() <= usize::MAX,
        offset <= text.len(),
    ensures
        read_on(entry, text, offset, limit).is_prefix_of(text.skip(offset as int)),
        read_on(entry, text, offset, limit) == text.skip(offset as int) || fitting_limit(
            entry,
            text,
            (offset + read_on(entry, text, offset, limit).len()) as usize,
            limit,
        ) is None,
    decreases text.len() - offset,
{
    match fitting_limit(entry, text, offset, limit) {
        None => {
            lemma_read_names();
            reveal_strlit("reason");
            assert("reason"@.len() == 6 && "content"@.len() == 7) by {
                reveal_strlit("content");
            }
        },
        Some(used) => {
            law_read_shows_text_in_order(entry, text, offset, limit);
            let content = char_range(text, offset as nat, used as nat);
            let end = range_end(text, offset as nat, used as nat);
            if end < text.len() {
                law_parts_make_the_text(entry, text, end as usize, limit);
                let rest = read_on(entry, text, end as usize, limit);
                assert(content + text.skip(end) =~= text.skip(offset as int));
                assert(read_on(entry, text, offset, limit) == content + rest);
                assert(content + rest =~= text.skip(offset as int).take((content + rest).len() as int));
            } else {
                assert(content =~= text.skip(offset as int));
            }
        },
    }
}

/// Every entry of a scan can be read by its references: they lead to an entry that has them, and to
/// the entry itself where no two entries share both.
pub proof fn law_listed_items_can_be_read(entries: Seq<EntryView>, index: int)
    requires
        0 <= index < entries.len(),
    ensures
        first_entry(entries, entries[index].item_id, entries[index].window_id) matches Some(found) && {
            &&& found.item_id == entries[index].item_id
            &&& found.window_id == entries[index].window_id
            &&& (forall|i: int|
                0 <= i < index ==> (#[trigger] entries[i]).item_id != entries[index].item_id
                    || entries[i].window_id != entries[index].window_id) ==> found == entries[index]
        },
    decreases entries.len(),
{
    let item_id = entries[index].item_id;
    let window_id = entries[index].window_id;
    if !(entries[0].item_id == item_id && entries[0].window_id == window_id) {
        let rest = entries.drop_first();
        law_listed_items_can_be_read(rest, index - 1);
        assert(rest[index - 1] == entries[index]);
        if forall|i: int|
            0 <= i < index ==> (#[trigger] entries[i]).item_id != item_id || entries[i].window_id != window_id {
            assert forall|i: int| 0 <= i < index - 1 implies (#[trigger] rest[i]).item_id != item_id
                || rest[i].window_id != window_id by {
                assert(rest[i] == entries[i + 1]);
            }
        }
    } else if index > 0 {
        assert(entries[0].item_id == item_id);
    }
}

/// Encrypted parts come back as they were recorded, in their order and all of them, or not at all.
pub proof fn law_replay_is_whole(request: ReadRequestView, entry: EntryView)
    requires
        replayable(entry),
    ensures
        entry_answer(request, entry) matches LocalResultView::AgentMessageReplay(items) ==> {
            &&& items == replayed(entry.projection.agent_message_encrypted_parts)
            &&& request.offset == 0
            &&& json_size(encrypted_parts_view(entry.projection.agent_message_encrypted_parts))
                <= MAX_HISTORY_RESULT_BYTES
        },
        entry_answer(request, entry) matches LocalResultView::Json(answer) ==> text_field(answer, "content"@)
            is None,
{
    lemma_read_names();
    reveal_strlit("content");
    reveal_strlit("status");
    reveal_strlit("reason");
    reveal_strlit("field");
    assert("content"@.len() == 7 && "status"@.len() == 6 && "reason"@.len() == 6 && "field"@.len() == 5);
}

} // verus!
