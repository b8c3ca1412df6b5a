//! Bounded scan of one thread's records.

use vstd::prelude::*;
use vstd::string::*;

use crate::json::json_parsed;
use crate::json::parse_record;
use crate::json::value_holds;
use crate::json::JsonView;
use crate::limits::char_range;
use crate::limits::char_slice;
use crate::limits::MAX_HISTORY_ERROR_CHARS;
use crate::limits::MAX_HISTORY_RECORD_BYTES;
use crate::limits::MAX_HISTORY_REPLACEMENT_ITEMS;
use crate::limits::MAX_HISTORY_SCAN_BYTES;
use crate::limits::MAX_HISTORY_SCAN_ERRORS;
use crate::limits::MAX_HISTORY_SCAN_RECORDS;
use crate::limits::MAX_HISTORY_SCAN_WINDOWS;
use crate::projection::calls_after;
use crate::projection::calls_after_record;
use crate::projection::explains_itself;
use crate::projection::law_projection_explains_itself;
use crate::projection::law_response_explains_itself;
use crate::projection::project_response_item;
use crate::projection::project_rollout_item;
use crate::projection::projected_record;
use crate::projection::projected_response;
use crate::projection::ProjectedItem;
use crate::projection::ProjectedView;
use crate::projection::ToolCallView;
use crate::projection::ToolCalls;
use crate::records::CompactedItem;
use crate::records::ResponseItem;
use crate::records::RolloutItem;
use crate::records::RolloutLine;
use crate::records::SessionMeta;
use crate::text::all_digits;
use crate::text::copy_opt;
use crate::text::decimal;
use crate::text::decimal_text;
use crate::text::digits_value;
use crate::text::is_digit;
use crate::text::lemma_decimal;
use crate::text::opt_view;
use crate::text::same_text;
use crate::text::texts_view;

verus! {

/// Where an entry comes from.
#[derive(Clone, Copy, Debug, PartialEq, Eq, Structural)]
pub struct SourceRef {
    pub ordinal: Option<u64>,
    pub physical_record: usize,
    pub replacement_index: Option<usize>,
}

/// The reference by which an entry is read again.
pub open spec fn item_id_of(source: SourceRef) -> Seq<char> {
    let base = match source.ordinal {
        Some(ordinal) => "ordinal:"@ + decimal(ordinal as nat),
        None => "record:"@ + decimal(source.physical_record as nat),
    };
    match source.replacement_index {
        Some(index) => base + ":replacement:"@ + decimal(index as nat),
        None => base,
    }
}

impl SourceRef {
    /// The reference by which an entry is read again.
    pub fn item_id(&self) -> (id: String)
        ensures
            id@ == item_id_of(*self),
    {
        let mut id = match self.ordinal {
            Some(ordinal) => "ordinal:".to_owned().concat(decimal_text(ordinal).as_str()),
            None => "record:".to_owned().concat(decimal_text(self.physical_record as u64).as_str()),
        };
        if let Some(index) = self.replacement_index {
            id.append(":replacement:");
            id.append(decimal_text(index as u64).as_str());
        }
        id
    }
}

/// One entry of the scanned history.
#[derive(Debug)]
pub struct HistoryEntry {
    pub item_id: String,
    pub window_number: u64,
    pub window_id: String,
    pub timestamp: String,
    pub source: SourceRef,
    pub projection: ProjectedItem,
}

/// What a `HistoryEntry` holds.
#[verifier::ext_equal]
pub struct EntryView {
    pub item_id: Seq<char>,
    pub window_number: u64,
    pub window_id: Seq<char>,
    pub timestamp: Seq<char>,
    pub source: SourceRef,
    pub projection: ProjectedView,
}

impl View for HistoryEntry {
    type V = EntryView;

    open spec fn view(&self) -> EntryView {
        EntryView {
            item_id: self.item_id@,
            window_number: self.window_number,
            window_id: self.window_id@,
            timestamp: self.timestamp@,
            source: self.source,
            projection: self.projection@,
        }
    }
}

/// Summary of one context window.
#[derive(Debug)]
pub struct WindowSummary {
    pub window_number: u64,
    pub window_id: String,
    pub context_window_id: Option<String>,
    pub item_count: usize,
    pub readable_item_count: usize,
    pub opaque_item_count: usize,
}

/// What a `WindowSummary` holds.
#[verifier::ext_equal]
pub struct WindowView {
    pub window_number: u64,
    pub window_id: Seq<char>,
    pub context_window_id: Option<Seq<char>>,
    pub item_count: usize,
    pub readable_item_count: usize,
    pub opaque_item_count: usize,
}

impl View for WindowSummary {
    type V = WindowView;

    open spec fn view(&self) -> WindowView {
        WindowView {
            window_number: self.window_number,
            window_id: self.window_id@,
            context_window_id: opt_view(self.context_window_id),
            item_count: self.item_count,
            readable_item_count: self.readable_item_count,
            opaque_item_count: self.opaque_item_count,
        }
    }
}

/// How far a scan came and what it met.
#[derive(Debug)]
pub struct ScanInfo {
    pub records_scanned: usize,
    pub complete: bool,
    pub truncated: bool,
    pub corrupt: bool,
    pub opaque_records: usize,
    pub inherited_records_skipped: usize,
    pub errors: Vec<String>,
    pub lineage_unavailable: bool,
}

/// What a `ScanInfo` holds.
#[verifier::ext_equal]
pub struct InfoView {
    pub records_scanned: usize,
    pub complete: bool,
    pub truncated: bool,
    pub corrupt: bool,
    pub opaque_records: usize,
    pub inherited_records_skipped: usize,
    pub errors: Seq<Seq<char>>,
    pub lineage_unavailable: bool,
}

impl View for ScanInfo {
    type V = InfoView;

    open spec fn view(&self) -> InfoView {
        InfoView {
            records_scanned: self.records_scanned,
            complete: self.complete,
            truncated: self.truncated,
            corrupt: self.corrupt,
            opaque_records: self.opaque_records,
            inherited_records_skipped: self.inherited_records_skipped,
            errors: texts_view(self.errors@),
            lineage_unavailable: self.lineage_unavailable,
        }
    }
}

/// What a row of entries holds.
pub open spec fn entries_view(entries: Seq<HistoryEntry>) -> Seq<EntryView> {
    entries.map_values(|entry: HistoryEntry| entry@)
}

/// What a row of windows holds.
pub open spec fn windows_view(windows: Seq<WindowSummary>) -> Seq<WindowView> {
    windows.map_values(|window: WindowSummary| window@)
}

/// Outcome of a scan: entries in record order, windows in ascending order of their numbers.
#[derive(Debug)]
pub struct ScanResult {
    pub entries: Vec<HistoryEntry>,
    pub windows: Vec<WindowSummary>,
    pub info: ScanInfo,
}

/// What a `ScanResult` holds.
#[verifier::ext_equal]
pub struct ScanView {
    pub entries: Seq<EntryView>,
    pub windows: Seq<WindowView>,
    pub info: InfoView,
}

impl View for ScanResult {
    type V = ScanView;

    open spec fn view(&self) -> ScanView {
        ScanView {
            entries: entries_view(self.entries@),
            windows: windows_view(self.windows@),
            info: self.info@,
        }
    }
}

/// The reference of a window of a thread.
pub open spec fn window_id_of(thread_id: Seq<char>, window_number: u64) -> Seq<char> {
    thread_id + ":"@ + decimal(window_number as nat)
}

/// The reference of a window of a thread.
pub fn window_id(thread_id: &str, window_number: u64) -> (id: String)
    ensures
        id@ == window_id_of(thread_id@, window_number),
{
    let mut id = thread_id.to_owned();
    id.append(":");
    id.append(decimal_text(window_number).as_str());
    id
}

/// One more, up to the largest count.
pub open spec fn one_more(count: usize) -> usize {
    if count < usize::MAX {
        (count + 1) as usize
    } else {
        count
    }
}

/// The position of the first window whose number is not below `number`.
pub open spec fn window_slot(windows: Seq<WindowView>, number: u64) -> int
    decreases windows.len(),
{
    if windows.len() == 0 || windows[0].window_number >= number {
        0
    } else {
        1 + window_slot(windows.drop_first(), number)
    }
}

/// A window with the given number is known.
pub open spec fn has_window(windows: Seq<WindowView>, number: u64) -> bool {
    window_slot(windows, number) < windows.len() && windows[window_slot(windows, number)].window_number
        == number
}

/// A window without entries.
pub open spec fn empty_window(
    thread_id: Seq<char>,
    number: u64,
    context_window_id: Option<Seq<char>>,
) -> WindowView {
    WindowView {
        window_number: number,
        window_id: window_id_of(thread_id, number),
        context_window_id,
        item_count: 0,
        readable_item_count: 0,
        opaque_item_count: 0,
    }
}

/// The window with one more entry.
pub open spec fn counted(window: WindowView, projection: ProjectedView) -> WindowView {
    WindowView {
        item_count: one_more(window.item_count),
        readable_item_count: if projection.content is Some {
            one_more(window.readable_item_count)
        } else {
            window.readable_item_count
        },
        opaque_item_count: if projection.opaque {
            one_more(window.opaque_item_count)
        } else {
            window.opaque_item_count
        },
        ..window
    }
}

/// What a `ScannerState` holds.
#[verifier::ext_equal]
pub struct StateView {
    pub thread_id: Seq<char>,
    pub entries: Seq<EntryView>,
    pub windows: Seq<WindowView>,
    pub info: InfoView,
    pub current_window: u64,
    pub ordinal_floor: Option<u64>,
    pub tool_calls: Map<Seq<char>, ToolCallView>,
    pub snapshot_len: u64,
    pub bytes_scanned: u64,
    pub physical_record: usize,
    pub record_number: usize,
    pub saw_identity: bool,
}

impl StateView {
    /// The scan before its first record.
    pub open spec fn fresh(thread_id: Seq<char>, snapshot_len: u64) -> StateView {
        StateView {
            thread_id,
            entries: Seq::empty(),
            windows: Seq::empty(),
            info: InfoView {
                records_scanned: 0,
                complete: true,
                truncated: false,
                corrupt: false,
                opaque_records: 0,
                inherited_records_skipped: 0,
                errors: Seq::empty(),
                lineage_unavailable: false,
            },
            current_window: 0,
            ordinal_floor: None,
            tool_calls: Map::empty(),
            snapshot_len,
            bytes_scanned: 0,
            physical_record: 0,
            record_number: 0,
            saw_identity: false,
        }
    }

    /// An error makes the scan incomplete; the first few are kept, cut to a bounded length.
    pub open spec fn with_error(self, error: Seq<char>) -> StateView {
        StateView {
            info: InfoView {
                complete: false,
                errors: if self.info.errors.len() < MAX_HISTORY_SCAN_ERRORS {
                    self.info.errors.push(char_range(error, 0, MAX_HISTORY_ERROR_CHARS as nat))
                } else {
                    self.info.errors
                },
                ..self.info
            },
            ..self
        }
    }

    /// Something was left out.
    pub open spec fn cut_short(self) -> StateView {
        StateView { info: InfoView { truncated: true, complete: false, ..self.info }, ..self }
    }

    /// A record could not be trusted.
    pub open spec fn spoiled(self) -> StateView {
        StateView { info: InfoView { corrupt: true, ..self.info }, ..self }
    }

    /// One more record that shows no text.
    pub open spec fn one_opaque(self) -> StateView {
        StateView {
            info: InfoView { opaque_records: one_more(self.info.opaque_records), ..self.info },
            ..self
        }
    }

    /// The window is known, or there is room for it.
    pub open spec fn admits_window(self, number: u64) -> bool {
        has_window(self.windows, number) || self.windows.len() < MAX_HISTORY_SCAN_WINDOWS
    }

    /// The scan with the window, where it is admitted; a given context window replaces the one that
    /// is known.
    pub open spec fn with_window(self, number: u64, context_window_id: Option<Seq<char>>) -> StateView {
        let slot = window_slot(self.windows, number);
        if has_window(self.windows, number) {
            if context_window_id is Some {
                StateView {
                    windows: self.windows.update(
                        slot,
                        WindowView { context_window_id, ..self.windows[slot] },
                    ),
                    ..self
                }
            } else {
                self
            }
        } else if self.windows.len() < MAX_HISTORY_SCAN_WINDOWS {
            StateView {
                windows: self.windows.insert(
                    slot,
                    empty_window(self.thread_id, number, context_window_id),
                ),
                ..self
            }
        } else {
            self.cut_short()
        }
    }

    /// The scan with one more entry in the current window, as far as there is room.
    pub open spec fn with_entry(
        self,
        timestamp: Seq<char>,
        source: SourceRef,
        projection: ProjectedView,
    ) -> StateView {
        if self.entries.len() >= MAX_HISTORY_SCAN_RECORDS {
            self.cut_short()
        } else if !self.admits_window(self.current_window) {
            self.cut_short()
        } else {
            let opened = self.with_window(self.current_window, None);
            let slot = window_slot(opened.windows, self.current_window);
            let entry = EntryView {
                item_id: item_id_of(source),
                window_number: self.current_window,
                window_id: window_id_of(self.thread_id, self.current_window),
                timestamp,
                source,
                projection,
            };
            let pushed = StateView {
                entries: opened.entries.push(entry),
                windows: opened.windows.update(slot, counted(opened.windows[slot], projection)),
                ..opened
            };
            if projection.opaque {
                pushed.one_opaque()
            } else {
                pushed
            }
        }
    }

    /// A record that belongs to inherited history.
    pub open spec fn inherited(self, ordinal: Option<u64>) -> bool {
        match (self.ordinal_floor, ordinal) {
            (Some(floor), Some(ordinal)) => ordinal < floor,
            _ => false,
        }
    }

    /// One inherited record was passed over.
    pub open spec fn passed_over(self) -> StateView {
        StateView {
            info: InfoView {
                inherited_records_skipped: one_more(self.info.inherited_records_skipped),
                ..self.info
            },
            ..self
        }
    }

    /// The scan after the items that replace the ones of an earlier window, one entry each.
    pub open spec fn with_replacements(
        self,
        items: Seq<ResponseItem>,
        timestamp: Seq<char>,
        ordinal: Option<u64>,
        physical_record: usize,
    ) -> StateView
        decreases items.len(),
    {
        if items.len() == 0 {
            self
        } else {
            let before = self.with_replacements(items.drop_last(), timestamp, ordinal, physical_record);
            let source = SourceRef {
                ordinal,
                physical_record,
                replacement_index: Some((items.len() - 1) as usize),
            };
            let projection = projected_response(items.last(), before.tool_calls);
            StateView {
                tool_calls: calls_after(items.last(), before.tool_calls),
                ..before
            }.with_entry(timestamp, source, projection)
        }
    }

    /// The scan after a compaction: the window moves on, the boundary is an entry that shows no text,
    /// and the items that replace earlier ones follow it.
    pub open spec fn compacted(
        self,
        item: CompactedItem,
        timestamp: Seq<char>,
        ordinal: Option<u64>,
        physical_record: usize,
    ) -> StateView {
        if self.inherited(ordinal) {
            self.passed_over()
        } else {
            match item.window_number {
                None => self.with_error(
                    "compaction at record "@ + decimal(physical_record as nat) + " has no window number"@,
                ).spoiled().one_opaque(),
                Some(number) => if number < self.current_window {
                    self.with_error(
                        "compaction window moved backwards from "@ + decimal(self.current_window as nat)
                            + " to "@ + decimal(number as nat),
                    ).spoiled()
                } else {
                    let moved = StateView { current_window: number, ..self };
                    let opened = moved.with_window(number, opt_view(item.window_id));
                    if !moved.admits_window(number) {
                        opened
                    } else {
                        let source = SourceRef { ordinal, physical_record, replacement_index: None };
                        let bounded = opened.with_entry(timestamp, source, boundary_view());
                        match item.replacement_history {
                            None => bounded,
                            Some(items) => if items@.len() <= MAX_HISTORY_REPLACEMENT_ITEMS {
                                bounded.with_replacements(items@, timestamp, ordinal, physical_record)
                            } else {
                                bounded.with_replacements(
                                    items@.take(MAX_HISTORY_REPLACEMENT_ITEMS as int),
                                    timestamp,
                                    ordinal,
                                    physical_record,
                                ).cut_short().with_error(
                                    "compaction replacement history exceeded "@ + decimal(
                                        MAX_HISTORY_REPLACEMENT_ITEMS as nat,
                                    ) + " items"@,
                                )
                            },
                        }
                    }
                },
            }
        }
    }

    /// The scan after the first record, which tells whose thread it is and where its own history
    /// starts.
    pub open spec fn identified(self, meta: SessionMeta) -> StateView {
        StateView {
            saw_identity: true,
            ordinal_floor: lineage_floor(meta),
            info: InfoView { lineage_unavailable: has_lineage(meta), ..self.info },
            ..self
        }.with_window(0, opt_view(meta.context_window_id))
    }

    /// The scan after a record behind the first.
    pub open spec fn after_line(self, line: RolloutLine) -> StateView {
        match line.item {
            RolloutItem::SessionMeta(_) => self.with_error(
                "duplicate session metadata at record "@ + decimal(self.record_number as nat),
            ),
            RolloutItem::Compacted(compacted) => self.compacted(
                compacted,
                line.timestamp@,
                line.ordinal,
                self.record_number,
            ),
            item => if self.inherited(line.ordinal) {
                self.passed_over()
            } else {
                let noted = StateView {
                    tool_calls: calls_after_record(item, self.tool_calls),
                    ..self
                };
                match projected_record(item, self.tool_calls) {
                    Some(projection) => noted.with_entry(
                        line.timestamp@,
                        SourceRef {
                            ordinal: line.ordinal,
                            physical_record: self.record_number,
                            replacement_index: None,
                        },
                        projection,
                    ),
                    None => if item is TurnContext || item is WorldState {
                        noted
                    } else {
                        noted.one_opaque()
                    },
                }
            },
        }
    }

    /// The scan once another record is asked for: it stops at the limit on records.
    pub open spec fn before_read(self) -> StateView {
        if self.info.records_scanned >= MAX_HISTORY_SCAN_RECORDS {
            self.cut_short()
        } else {
            self
        }
    }

    /// The scan after a read, and what follows. No bytes mean the end of the records.
    pub open spec fn after_read(self, read: ReadOutcome) -> (StateView, StepView) {
        match read {
            ReadOutcome::Failed(error) => (
                self.with_error("rollout read failed: "@ + error@).spoiled(),
                StepView::Stop,
            ),
            ReadOutcome::Bytes(line) => if line@.len() == 0 {
                if self.bytes_scanned < self.snapshot_len {
                    (
                        self.cut_short().with_error(
                            "rollout scan byte limit reached or snapshot shortened"@,
                        ),
                        StepView::Stop,
                    )
                } else {
                    (self, StepView::Stop)
                }
            } else {
                let read = StateView {
                    bytes_scanned: more_bytes(self.bytes_scanned, line@.len()),
                    ..self
                };
                if line@.len() > MAX_HISTORY_RECORD_BYTES {
                    (
                        read.cut_short().with_error("rollout record exceeds the bounded reader limit"@),
                        StepView::Stop,
                    )
                } else if line@.last() != LINE_FEED {
                    (
                        read.cut_short().with_error("incomplete rollout tail or scan byte limit"@),
                        StepView::Stop,
                    )
                } else {
                    let numbered = StateView {
                        record_number: self.physical_record,
                        physical_record: one_more(self.physical_record),
                        ..read
                    };
                    if blank_bytes(line@) {
                        (numbered, StepView::Next)
                    } else {
                        numbered.after_record(line@)
                    }
                }
            },
        }
    }

    /// The scan after a whole record that is not blank.
    pub open spec fn after_record(self, line: Seq<u8>) -> (StateView, StepView) {
        let met = StateView {
            info: InfoView { records_scanned: one_more(self.info.records_scanned), ..self.info },
            ..self
        };
        match json_parsed(line) {
            Ok(value) => (met, StepView::Decode(value)),
            Err(error) => if !self.saw_identity {
                (met, StepView::Fail("rollout identity record is malformed: "@ + error))
            } else {
                (
                    met.with_error(
                        "malformed rollout record "@ + decimal(self.record_number as nat) + ": "@ + error,
                    ).spoiled(),
                    StepView::Stop,
                )
            },
        }
    }

    /// The scan after the decoder's reply to a record, and what follows.
    pub open spec fn after_decode(self, decoded: Result<RolloutLine, String>) -> (StateView, StepView) {
        match decoded {
            Err(error) => if !self.saw_identity {
                (self, StepView::Fail("rollout identity record is malformed: "@ + error@))
            } else {
                (
                    self.with_error(
                        "undecodable rollout record "@ + decimal(self.record_number as nat) + ": "@
                            + error@,
                    ).spoiled(),
                    StepView::Stop,
                )
            },
            Ok(line) => if self.saw_identity {
                (self.after_line(line), StepView::Next)
            } else {
                match line.item {
                    RolloutItem::SessionMeta(meta) => if meta.id@ == self.thread_id {
                        (self.identified(meta), StepView::Next)
                    } else {
                        (
                            self,
                            StepView::Fail(
                                "rollout identity mismatch: expected thread "@ + self.thread_id
                                    + ", found "@ + meta.id@,
                            ),
                        )
                    },
                    _ => (self, StepView::Fail("rollout does not start with session metadata"@)),
                }
            },
        }
    }

    /// What the scan gives: nothing without the record that tells whose thread it is.
    pub open spec fn outcome(self) -> Result<ScanView, Seq<char>> {
        if self.saw_identity {
            Ok(ScanView { entries: self.entries, windows: self.windows, info: self.info })
        } else {
            Err("rollout has no session metadata"@)
        }
    }
}

/// The projection of a compaction boundary.
pub open spec fn boundary_view() -> ProjectedView {
    ProjectedView::unreadable("system"@, "compaction_boundary"@, "compaction_boundary"@)
}

/// The thread continues history that is not its own.
pub open spec fn has_lineage(meta: SessionMeta) -> bool {
    ||| meta.history_base_end_ordinal is Some
    ||| meta.forked_from_id is Some
    ||| meta.forked_from_ordinal_exclusive is Some
    ||| meta.subagent_history_start_ordinal is Some
}

/// The larger of two optional numbers.
pub open spec fn larger(left: Option<u64>, right: Option<u64>) -> Option<u64> {
    match (left, right) {
        (Some(a), Some(b)) => Some(
            if a >= b {
                a
            } else {
                b
            },
        ),
        (Some(a), None) => Some(a),
        (None, other) => other,
    }
}

/// The ordinal at which the thread's own history starts.
pub open spec fn lineage_floor(meta: SessionMeta) -> Option<u64> {
    larger(
        larger(meta.history_base_end_ordinal, meta.forked_from_ordinal_exclusive),
        meta.subagent_history_start_ordinal,
    )
}

/// Byte count after `count` more, up to the largest count.
pub open spec fn more_bytes(scanned: u64, count: nat) -> u64 {
    if scanned + count <= u64::MAX {
        (scanned + count) as u64
    } else {
        u64::MAX
    }
}

/// How many bytes of the records a scan may read.
pub open spec fn bytes_to_read(snapshot_len: u64) -> u64 {
    if snapshot_len <= MAX_HISTORY_SCAN_BYTES {
        snapshot_len
    } else {
        MAX_HISTORY_SCAN_BYTES
    }
}

/// Why a scan fails where the records cannot be opened.
pub fn open_failure(error: &str) -> (reason: String)
    ensures
        reason@ == "cannot open active rollout: "@ + error@,
{
    let mut reason = "cannot open active rollout: ".to_owned();
    reason.append(error);
    reason
}

/// The byte that ends a record.
pub const LINE_FEED: u8 = 10;

/// ASCII white space: space, tab, line feed, form feed or carriage return.
pub open spec fn ascii_white(byte: u8) -> bool {
    byte == 32 || byte == 9 || byte == 10 || byte == 12 || byte == 13
}

/// Nothing but ASCII white space.
pub open spec fn blank_bytes(bytes: Seq<u8>) -> bool {
    forall|i: int| 0 <= i < bytes.len() ==> ascii_white(#[trigger] bytes[i])
}

/// What came of reading one record.
#[derive(Debug)]
pub enum ReadOutcome {
    /// The bytes up to and with the next line feed, fewer at the end or at the limit on a record;
    /// none at the end.
    Bytes(Vec<u8>),
    /// The text of the error.
    Failed(String),
}

/// What a scan does next.
#[derive(Debug)]
pub enum RecordStep {
    /// Read the next record.
    Next,
    /// The scan ends with what it has.
    Stop,
    /// The scan fails for this reason.
    Fail(String),
    /// The record's value is to be decoded.
    Decode(serde_json::Value),
}

/// What a `RecordStep` holds.
#[verifier::ext_equal]
pub enum StepView {
    Next,
    Stop,
    Fail(Seq<char>),
    Decode(JsonView),
}

impl View for RecordStep {
    type V = StepView;

    open spec fn view(&self) -> StepView {
        match self {
            RecordStep::Next => StepView::Next,
            RecordStep::Stop => StepView::Stop,
            RecordStep::Fail(reason) => StepView::Fail(reason@),
            RecordStep::Decode(value) => StepView::Decode(value_holds(*value)),
        }
    }
}

/// What the outcome of a scan holds.
pub open spec fn scan_outcome(outcome: Result<ScanResult, String>) -> Result<ScanView, Seq<char>> {
    match outcome {
        Ok(scan) => Ok(scan@),
        Err(error) => Err(error@),
    }
}

/// A scan of one thread's records, fed record by record.
#[derive(Debug)]
pub struct ScannerState {
    thread_id: String,
    entries: Vec<HistoryEntry>,
    windows: Vec<WindowSummary>,
    info: ScanInfo,
    current_window: u64,
    ordinal_floor: Option<u64>,
    tool_calls: ToolCalls,
    snapshot_len: u64,
    bytes_scanned: u64,
    physical_record: usize,
    record_number: usize,
    saw_identity: bool,
}

impl View for ScannerState {
    type V = StateView;

    closed spec fn view(&self) -> StateView {
        StateView {
            thread_id: self.thread_id@,
            entries: entries_view(self.entries@),
            windows: windows_view(self.windows@),
            info: self.info@,
            current_window: self.current_window,
            ordinal_floor: self.ordinal_floor,
            tool_calls: self.tool_calls@,
            snapshot_len: self.snapshot_len,
            bytes_scanned: self.bytes_scanned,
            physical_record: self.physical_record,
            record_number: self.record_number,
            saw_identity: self.saw_identity,
        }
    }
}

/// Appends the pieces to one text.
fn text_from(first: &str, second: &str, third: &str, fourth: &str) -> (text: String)
    ensures
        text@ == first@ + second@ + third@ + fourth@,
{
    let mut text = first.to_owned();
    text.append(second);
    text.append(third);
    text.append(fourth);
    text
}

/// One more, up to the largest count.
fn count_one(count: usize) -> (more: usize)
    ensures
        more == one_more(count),
{
    if count < usize::MAX {
        count + 1
    } else {
        count
    }
}

/// The larger of two optional numbers.
fn larger_of(left: Option<u64>, right: Option<u64>) -> (found: Option<u64>)
    ensures
        found == larger(left, right),
{
    match (left, right) {
        (Some(a), Some(b)) => if a >= b {
            Some(a)
        } else {
            Some(b)
        },
        (Some(a), None) => Some(a),
        (None, other) => other,
    }
}

/// The ordinal at which the thread's own history starts.
pub fn lineage_ordinal_floor(meta: &SessionMeta) -> (floor: Option<u64>)
    ensures
        floor == lineage_floor(*meta),
{
    larger_of(
        larger_of(meta.history_base_end_ordinal, meta.forked_from_ordinal_exclusive),
        meta.subagent_history_start_ordinal,
    )
}

/// Whether the bytes are nothing but ASCII white space.
fn is_blank_bytes(bytes: &Vec<u8>) -> (result: bool)
    ensures
        result == blank_bytes(bytes@),
{
    let mut index: usize = 0;
    while index < bytes.len()
        invariant
            index <= bytes@.len(),
            forall|i: int| 0 <= i < index ==> ascii_white(#[trigger] bytes@[i]),
        decreases bytes@.len() - index,
    {
        let byte: u8 = bytes[index];
        if !(byte == 32 || byte == 9 || byte == 10 || byte == 12 || byte == 13) {
            assert(!ascii_white(bytes@[index as int]));
            return false;
        }
        index = index + 1;
    }
    true
}

/// A window that was opened stands where it is looked for.
proof fn lemma_window_opened(state: StateView, number: u64)
    requires
        state.admits_window(number),
    ensures
        has_window(state.with_window(number, None).windows, number),
{
    lemma_slot(state.windows, number);
    if !has_window(state.windows, number) {
        lemma_slot_inserted(
            state.windows,
            number,
            window_slot(state.windows, number),
            empty_window(state.thread_id, number, None),
        );
    }
}

/// The windows before the slot have smaller numbers, the one at it has not.
proof fn lemma_slot(windows: Seq<WindowView>, number: u64)
    ensures
        0 <= window_slot(windows, number) <= windows.len(),
        forall|i: int| 0 <= i < window_slot(windows, number) ==> (#[trigger] windows[i]).window_number < number,
        window_slot(windows, number) < windows.len() ==> windows[window_slot(windows, number)].window_number
            >= number,
    decreases windows.len(),
{
    if windows.len() > 0 && windows[0].window_number < number {
        lemma_slot(windows.drop_first(), number);
        assert forall|i: int| 0 <= i < window_slot(windows, number) implies (#[trigger] windows[i]).window_number
            < number by {
            if i > 0 {
                assert(windows[i] == windows.drop_first()[i - 1]);
            }
        }
    }
}

/// A position with smaller numbers before it and none at it is the slot.
proof fn lemma_slot_unique(windows: Seq<WindowView>, number: u64, slot: int)
    requires
        0 <= slot <= windows.len(),
        forall|i: int| 0 <= i < slot ==> (#[trigger] windows[i]).window_number < number,
        slot < windows.len() ==> windows[slot].window_number >= number,
    ensures
        window_slot(windows, number) == slot,
{
    lemma_slot(windows, number);
    let found = window_slot(windows, number);
    if found < slot {
        assert(windows[found].window_number < number);
    }
    if slot < found {
        assert(windows[slot].window_number < number);
    }
}

/// A window inserted at its slot is found there.
proof fn lemma_slot_inserted(windows: Seq<WindowView>, number: u64, slot: int, window: WindowView)
    requires
        slot == window_slot(windows, number),
        window.window_number == number,
    ensures
        window_slot(windows.insert(slot, window), number) == slot,
{
    lemma_slot(windows, number);
    lemma_slot_unique(windows.insert(slot, window), number, slot);
}

impl ScannerState {
    /// No call ID occurs twice among the remembered calls.
    pub closed spec fn wf(self) -> bool {
        self.tool_calls.wf()
    }

    /// The scan before its first record. `snapshot_len` is the size of the records when it starts.
    pub fn new(thread_id: &str, snapshot_len: u64) -> (state: ScannerState)
        ensures
            state.wf(),
            state@ == StateView::fresh(thread_id@, snapshot_len),
    {
        let state = ScannerState {
            thread_id: thread_id.to_owned(),
            entries: Vec::new(),
            windows: Vec::new(),
            info: ScanInfo {
                records_scanned: 0,
                complete: true,
                truncated: false,
                corrupt: false,
                opaque_records: 0,
                inherited_records_skipped: 0,
                errors: Vec::new(),
                lineage_unavailable: false,
            },
            current_window: 0,
            ordinal_floor: None,
            tool_calls: ToolCalls::new(),
            snapshot_len,
            bytes_scanned: 0,
            physical_record: 0,
            record_number: 0,
            saw_identity: false,
        };
        assert(state@ =~= StateView::fresh(thread_id@, snapshot_len));
        state
    }

    /// Notes an error.
    pub fn add_error(&mut self, error: &str)
        requires
            old(self).wf(),
        ensures
            final(self).wf(),
            final(self)@ == old(self)@.with_error(error@),
    {
        self.info.complete = false;
        if self.info.errors.len() < MAX_HISTORY_SCAN_ERRORS {
            let (cut, _, _) = char_slice(error, 0, MAX_HISTORY_ERROR_CHARS);
            self.info.errors.push(cut.to_owned());
        }
        assert(final(self)@ =~= old(self)@.with_error(error@));
    }

    /// Notes that something was left out.
    fn cut(&mut self)
        requires
            old(self).wf(),
        ensures
            final(self).wf(),
            final(self)@ == old(self)@.cut_short(),
    {
        self.info.truncated = true;
        self.info.complete = false;
    }

    /// Notes a record that cannot be trusted.
    fn spoil(&mut self)
        requires
            old(self).wf(),
        ensures
            final(self).wf(),
            final(self)@ == old(self)@.spoiled(),
    {
        self.info.corrupt = true;
    }

    /// Counts a record that shows no text.
    fn count_opaque(&mut self)
        requires
            old(self).wf(),
        ensures
            final(self).wf(),
            final(self)@ == old(self)@.one_opaque(),
    {
        self.info.opaque_records = count_one(self.info.opaque_records);
    }

    /// The position of the first window whose number is not below `number`.
    fn slot(&self, number: u64) -> (slot: usize)
        ensures
            slot == window_slot(self@.windows, number),
            slot <= self.windows@.len(),
    {
        let mut index: usize = 0;
        let ghost views = windows_view(self.windows@);
        assert(views.skip(0) =~= views);
        while index < self.windows.len() && self.windows[index].window_number < number
            invariant
                views == windows_view(self.windows@),
                index <= self.windows@.len(),
                window_slot(views, number) == index + window_slot(views.skip(index as int), number),
            decreases self.windows@.len() - index,
        {
            assert(views.skip(index as int).drop_first() =~= views.skip(index + 1));
            index = index + 1;
        }
        index
    }

    /// Makes the window known; says whether there was room for it.
    pub fn ensure_window(&mut self, number: u64, context_window_id: Option<String>) -> (known: bool)
        requires
            old(self).wf(),
        ensures
            final(self).wf(),
            known == old(self)@.admits_window(number),
            final(self)@ == old(self)@.with_window(number, opt_view(context_window_id)),
    {
        let slot: usize = self.slot(number);
        if slot < self.windows.len() && self.windows[slot].window_number == number {
            if context_window_id.is_some() {
                self.windows[slot].context_window_id = context_window_id;
            }
            assert(final(self)@ =~= old(self)@.with_window(number, opt_view(context_window_id)));
            return true;
        }
        if self.windows.len() >= MAX_HISTORY_SCAN_WINDOWS {
            self.cut();
            return false;
        }
        let window = WindowSummary {
            window_number: number,
            window_id: window_id(self.thread_id.as_str(), number),
            context_window_id,
            item_count: 0,
            readable_item_count: 0,
            opaque_item_count: 0,
        };
        self.windows.insert(slot, window);
        assert(final(self)@ =~= old(self)@.with_window(number, opt_view(context_window_id)));
        true
    }

    /// Adds an entry to the current window, as far as there is room.
    pub fn push_entry(&mut self, timestamp: &str, source: SourceRef, projection: ProjectedItem)
        requires
            old(self).wf(),
        ensures
            final(self).wf(),
            final(self)@ == old(self)@.with_entry(timestamp@, source, projection@),
    {
        if self.entries.len() >= MAX_HISTORY_SCAN_RECORDS {
            self.cut();
            return;
        }
        let number: u64 = self.current_window;
        if !self.ensure_window(number, None) {
            return;
        }
        let ghost opened = self@;
        proof {
            lemma_window_opened(old(self)@, number);
        }
        let slot: usize = self.slot(number);
        let is_opaque: bool = projection.opaque;
        let is_readable: bool = projection.content.is_some();
        self.windows[slot].item_count = count_one(self.windows[slot].item_count);
        if is_readable {
            self.windows[slot].readable_item_count = count_one(self.windows[slot].readable_item_count);
        }
        if is_opaque {
            self.windows[slot].opaque_item_count = count_one(self.windows[slot].opaque_item_count);
        }
        let entry = HistoryEntry {
            item_id: source.item_id(),
            window_number: number,
            window_id: window_id(self.thread_id.as_str(), number),
            timestamp: timestamp.to_owned(),
            source,
            projection,
        };
        self.entries.push(entry);
        assert(self@.windows =~= opened.windows.update(
            slot as int,
            counted(opened.windows[slot as int], projection@),
        ));
        assert(self@.entries =~= opened.entries.push(entry@));
        if is_opaque {
            self.count_opaque();
        }
    }

    /// Whether the record belongs to inherited history, which is passed over.
    pub fn should_skip_ordinal(&mut self, ordinal: Option<u64>) -> (skip: bool)
        requires
            old(self).wf(),
        ensures
            final(self).wf(),
            skip == old(self)@.inherited(ordinal),
            final(self)@ == if skip {
                old(self)@.passed_over()
            } else {
                old(self)@
            },
    {
        match (self.ordinal_floor, ordinal) {
            (Some(floor), Some(ordinal)) => {
                if ordinal < floor {
                    self.info.inherited_records_skipped = count_one(self.info.inherited_records_skipped);
                    true
                } else {
                    false
                }
            },
            _ => false,
        }
    }

    /// Takes in a compaction.
    pub fn process_compaction(
        &mut self,
        compacted: &CompactedItem,
        timestamp: &str,
        ordinal: Option<u64>,
        physical_record: usize,
    )
        requires
            old(self).wf(),
        ensures
            final(self).wf(),
            final(self)@ == old(self)@.compacted(*compacted, timestamp@, ordinal, physical_record),
    {
        if self.should_skip_ordinal(ordinal) {
            return;
        }
        let number: u64 = match compacted.window_number {
            Some(number) => number,
            None => {
                let record = decimal_text(physical_record as u64);
                let mut error = "compaction at record ".to_owned();
                error.append(record.as_str());
                error.append(" has no window number");
                self.add_error(error.as_str());
                self.spoil();
                self.count_opaque();
                return;
            },
        };
        if number < self.current_window {
            let from = decimal_text(self.current_window);
            let to = decimal_text(number);
            let error = text_from(
                "compaction window moved backwards from ",
                from.as_str(),
                " to ",
                to.as_str(),
            );
            self.add_error(error.as_str());
            self.spoil();
            return;
        }
        self.current_window = number;
        if !self.ensure_window(number, copy_opt(&compacted.window_id)) {
            return;
        }
        let boundary = ProjectedItem::opaque("system", "compaction_boundary", "compaction_boundary");
        self.push_entry(
            timestamp,
            SourceRef { ordinal, physical_record, replacement_index: None },
            boundary,
        );
        let ghost bounded = self@;
        if let Some(items) = &compacted.replacement_history {
            let kept: usize = if items.len() <= MAX_HISTORY_REPLACEMENT_ITEMS {
                items.len()
            } else {
                MAX_HISTORY_REPLACEMENT_ITEMS
            };
            let mut index: usize = 0;
            while index < kept
                invariant
                    self.wf(),
                    index <= kept <= items@.len(),
                    self@ == bounded.with_replacements(
                        items@.take(index as int),
                        timestamp@,
                        ordinal,
                        physical_record,
                    ),
                decreases kept - index,
            {
                assert(items@.take(index + 1).drop_last() =~= items@.take(index as int));
                let projection = project_response_item(&items[index], &mut self.tool_calls);
                self.push_entry(
                    timestamp,
                    SourceRef { ordinal, physical_record, replacement_index: Some(index) },
                    projection,
                );
                index = index + 1;
            }
            assert(items@.len() <= MAX_HISTORY_REPLACEMENT_ITEMS ==> items@.take(kept as int) =~= items@);
            if items.len() > MAX_HISTORY_REPLACEMENT_ITEMS {
                self.cut();
                let limit = decimal_text(MAX_HISTORY_REPLACEMENT_ITEMS as u64);
                let mut error = "compaction replacement history exceeded ".to_owned();
                error.append(limit.as_str());
                error.append(" items");
                self.add_error(error.as_str());
            }
        }
    }

    /// How many bytes of the records may be read in all: those that were there when the scan started, up
    /// to the limit on a scan.
    pub fn byte_limit(&self) -> (limit: u64)
        ensures
            limit == bytes_to_read(self@.snapshot_len),
    {
        if self.snapshot_len <= MAX_HISTORY_SCAN_BYTES {
            self.snapshot_len
        } else {
            MAX_HISTORY_SCAN_BYTES
        }
    }

    /// Whether another record may be read.
    pub fn may_read(&mut self) -> (more: bool)
        requires
            old(self).wf(),
        ensures
            final(self).wf(),
            more == (old(self)@.info.records_scanned < MAX_HISTORY_SCAN_RECORDS),
            final(self)@ == old(self)@.before_read(),
    {
        if self.info.records_scanned >= MAX_HISTORY_SCAN_RECORDS {
            self.cut();
            return false;
        }
        true
    }

    /// Takes in what came of reading one record.
    pub fn on_read(&mut self, read: ReadOutcome) -> (step: RecordStep)
        requires
            old(self).wf(),
        ensures
            final(self).wf(),
            (final(self)@, step@) == old(self)@.after_read(read),
    {
        let line = match read {
            ReadOutcome::Bytes(line) => line,
            ReadOutcome::Failed(error) => {
                let mut text = "rollout read failed: ".to_owned();
                text.append(error.as_str());
                self.add_error(text.as_str());
                self.spoil();
                return RecordStep::Stop;
            },
        };
        if line.len() == 0 {
            if self.bytes_scanned < self.snapshot_len {
                self.cut();
                self.add_error("rollout scan byte limit reached or snapshot shortened");
            }
            return RecordStep::Stop;
        }
        let size: u64 = line.len() as u64;
        self.bytes_scanned = if size <= u64::MAX - self.bytes_scanned {
            self.bytes_scanned + size
        } else {
            u64::MAX
        };
        if size > MAX_HISTORY_RECORD_BYTES {
            self.cut();
            self.add_error("rollout record exceeds the bounded reader limit");
            return RecordStep::Stop;
        }
        if line[line.len() - 1] != LINE_FEED {
            self.cut();
            self.add_error("incomplete rollout tail or scan byte limit");
            return RecordStep::Stop;
        }
        self.record_number = self.physical_record;
        self.physical_record = count_one(self.physical_record);
        if is_blank_bytes(&line) {
            return RecordStep::Next;
        }
        self.info.records_scanned = count_one(self.info.records_scanned);
        match parse_record(line.as_slice()) {
            Ok(value) => RecordStep::Decode(value),
            Err(error) => {
                if !self.saw_identity {
                    let mut text = "rollout identity record is malformed: ".to_owned();
                    text.append(error.as_str());
                    return RecordStep::Fail(text);
                }
                let record = decimal_text(self.record_number as u64);
                let text = text_from("malformed rollout record ", record.as_str(), ": ", error.as_str());
                self.add_error(text.as_str());
                self.spoil();
                RecordStep::Stop
            },
        }
    }

    /// Takes in the decoder's reply to a record.
    pub fn on_decoded(&mut self, decoded: Result<RolloutLine, String>) -> (step: RecordStep)
        requires
            old(self).wf(),
        ensures
            final(self).wf(),
            (final(self)@, step@) == old(self)@.after_decode(decoded),
    {
        match &decoded {
            Err(error) => {
                if !self.saw_identity {
                    let mut text = "rollout identity record is malformed: ".to_owned();
                    text.append(error.as_str());
                    return RecordStep::Fail(text);
                }
                let record = decimal_text(self.record_number as u64);
                let text = text_from("undecodable rollout record ", record.as_str(), ": ", error.as_str());
                self.add_error(text.as_str());
                self.spoil();
                RecordStep::Stop
            },
            Ok(line) => {
                if self.saw_identity {
                    self.take_line(line);
                    RecordStep::Next
                } else {
                    self.identify(line)
                }
            },
        }
    }

    /// Takes in the first record.
    fn identify(&mut self, line: &RolloutLine) -> (step: RecordStep)
        requires
            old(self).wf(),
            !old(self)@.saw_identity,
        ensures
            final(self).wf(),
            (final(self)@, step@) == old(self)@.after_decode(Ok(*line)),
    {
        match &line.item {
            RolloutItem::SessionMeta(meta) => {
                if !same_text(meta.id.as_str(), self.thread_id.as_str()) {
                    let text = text_from(
                        "rollout identity mismatch: expected thread ",
                        self.thread_id.as_str(),
                        ", found ",
                        meta.id.as_str(),
                    );
                    return RecordStep::Fail(text);
                }
                self.saw_identity = true;
                self.info.lineage_unavailable = meta.history_base_end_ordinal.is_some()
                    || meta.forked_from_id.is_some() || meta.forked_from_ordinal_exclusive.is_some()
                    || meta.subagent_history_start_ordinal.is_some();
                self.ordinal_floor = lineage_ordinal_floor(meta);
                self.ensure_window(0, copy_opt(&meta.context_window_id));
                RecordStep::Next
            },
            _ => RecordStep::Fail("rollout does not start with session metadata".to_owned()),
        }
    }

    /// Takes in a record behind the first.
    fn take_line(&mut self, line: &RolloutLine)
        requires
            old(self).wf(),
        ensures
            final(self).wf(),
            final(self)@ == old(self)@.after_line(*line),
    {
        match &line.item {
            RolloutItem::SessionMeta(_) => {
                let record = decimal_text(self.record_number as u64);
                let mut error = "duplicate session metadata at record ".to_owned();
                error.append(record.as_str());
                self.add_error(error.as_str());
            },
            RolloutItem::Compacted(compacted) => {
                let record: usize = self.record_number;
                self.process_compaction(compacted, line.timestamp.as_str(), line.ordinal, record);
            },
            item => {
                if self.should_skip_ordinal(line.ordinal) {
                    return;
                }
                match project_rollout_item(item, &mut self.tool_calls) {
                    Some(projection) => {
                        let source = SourceRef {
                            ordinal: line.ordinal,
                            physical_record: self.record_number,
                            replacement_index: None,
                        };
                        self.push_entry(line.timestamp.as_str(), source, projection);
                    },
                    None => {
                        match item {
                            RolloutItem::TurnContext => {},
                            RolloutItem::WorldState => {},
                            _ => {
                                self.count_opaque();
                            },
                        }
                    },
                }
            },
        }
    }

    /// What the scan gives.
    pub fn finish(self) -> (outcome: Result<ScanResult, String>)
        ensures
            scan_outcome(outcome) == self@.outcome(),
    {
        if !self.saw_identity {
            return Err("rollout has no session metadata".to_owned());
        }
        Ok(ScanResult { entries: self.entries, windows: self.windows, info: self.info })
    }
}

/// Number of entries with a property.
pub open spec fn tally(entries: Seq<EntryView>, wanted: spec_fn(EntryView) -> bool) -> nat
    decreases entries.len(),
{
    if entries.len() == 0 {
        0
    } else {
        tally(entries.drop_last(), wanted) + (if wanted(entries.last()) {
            1nat
        } else {
            0
        })
    }
}

/// The entry belongs to the window.
pub open spec fn in_window(number: u64) -> spec_fn(EntryView) -> bool {
    |entry: EntryView| entry.window_number == number
}

/// The entry belongs to the window and shows text.
pub open spec fn readable_in_window(number: u64) -> spec_fn(EntryView) -> bool {
    |entry: EntryView| entry.window_number == number && entry.projection.content is Some
}

/// The entry belongs to the window and leaves something unsaid.
pub open spec fn opaque_in_window(number: u64) -> spec_fn(EntryView) -> bool {
    |entry: EntryView| entry.window_number == number && entry.projection.opaque
}

/// The summary counts the entries of its window.
pub open spec fn sums_up(window: WindowView, entries: Seq<EntryView>) -> bool {
    &&& window.item_count == tally(entries, in_window(window.window_number))
    &&& window.readable_item_count == tally(entries, readable_in_window(window.window_number))
    &&& window.opaque_item_count == tally(entries, opaque_in_window(window.window_number))
}

impl StateView {
    /// What holds of every scan: its bounds, the order of its windows, their counts, the references
    /// of its entries, that a complete scan met no trouble, and that any other says what it met.
    pub open spec fn inv(self) -> bool {
        &&& self.entries.len() <= MAX_HISTORY_SCAN_RECORDS
        &&& self.windows.len() <= MAX_HISTORY_SCAN_WINDOWS
        &&& self.info.errors.len() <= MAX_HISTORY_SCAN_ERRORS
        &&& forall|i: int|
            0 <= i < self.info.errors.len() ==> (#[trigger] self.info.errors[i]).len()
                <= MAX_HISTORY_ERROR_CHARS
        &&& self.info.complete ==> {
            &&& !self.info.truncated
            &&& !self.info.corrupt
            &&& self.info.errors.len() == 0
        }
        &&& !self.info.complete ==> self.info.truncated || self.info.errors.len() > 0
        &&& self.info.corrupt ==> self.info.errors.len() > 0
        &&& forall|i: int, j: int|
            0 <= i < j < self.windows.len() ==> self.windows[i].window_number
                < self.windows[j].window_number
        &&& forall|i: int|
            0 <= i < self.windows.len() ==> {
                &&& (#[trigger] self.windows[i]).window_number <= self.current_window
                &&& self.windows[i].window_id == window_id_of(self.thread_id, self.windows[i].window_number)
                &&& sums_up(self.windows[i], self.entries)
            }
        &&& forall|j: int|
            0 <= j < self.entries.len() ==> {
                &&& has_window(self.windows, (#[trigger] self.entries[j]).window_number)
                &&& self.entries[j].window_id == window_id_of(self.thread_id, self.entries[j].window_number)
                &&& self.entries[j].item_id == item_id_of(self.entries[j].source)
                &&& explains_itself(self.entries[j].projection)
            }
        &&& forall|i: int, j: int|
            0 <= i < j < self.entries.len() ==> self.entries[i].window_number
                <= self.entries[j].window_number
    }

    /// `later` is of the same thread, keeps the entries of this scan and adds others behind them.
    pub open spec fn kept_by(self, later: StateView) -> bool {
        &&& later.thread_id == self.thread_id
        &&& self.entries.is_prefix_of(later.entries)
    }
}

/// In ascending order the slot of a window that is known is its position.
proof fn lemma_known_window(windows: Seq<WindowView>, index: int)
    requires
        0 <= index < windows.len(),
        forall|i: int, j: int| 0 <= i < j < windows.len() ==> windows[i].window_number < windows[j].window_number,
    ensures
        window_slot(windows, windows[index].window_number) == index,
        has_window(windows, windows[index].window_number),
{
    lemma_slot_unique(windows, windows[index].window_number, index);
}

/// One more entry counts where it has the property.
proof fn lemma_tally_push(entries: Seq<EntryView>, entry: EntryView, wanted: spec_fn(EntryView) -> bool)
    ensures
        tally(entries.push(entry), wanted) == tally(entries, wanted) + (if wanted(entry) {
            1nat
        } else {
            0
        }),
        tally(entries, wanted) <= entries.len(),
    decreases entries.len(),
{
    assert(entries.push(entry).drop_last() =~= entries);
    if entries.len() > 0 {
        lemma_tally_push(entries.drop_last(), entries.last(), wanted);
        assert(entries.drop_last().push(entries.last()) =~= entries);
    }
}

/// Nothing counts where no entry has the property.
proof fn lemma_tally_none(entries: Seq<EntryView>, wanted: spec_fn(EntryView) -> bool)
    requires
        forall|j: int| 0 <= j < entries.len() ==> !wanted(#[trigger] entries[j]),
    ensures
        tally(entries, wanted) == 0,
    decreases entries.len(),
{
    if entries.len() > 0 {
        lemma_tally_none(entries.drop_last(), wanted);
    }
}

/// The bounds and the order hold of a scan before its first record.
pub proof fn law_fresh_scan(thread_id: Seq<char>, snapshot_len: u64)
    ensures
        StateView::fresh(thread_id, snapshot_len).inv(),
{
}

/// A window keeps what holds of every scan.
pub proof fn lemma_window_inv(state: StateView, number: u64, context_window_id: Option<Seq<char>>)
    requires
        state.inv(),
        number <= state.current_window,
    ensures
        state.with_window(number, context_window_id).inv(),
        state.with_window(number, context_window_id).entries == state.entries,
        state.admits_window(number) ==> has_window(
            state.with_window(number, context_window_id).windows,
            number,
        ),
{
    let after = state.with_window(number, context_window_id);
    let slot = window_slot(state.windows, number);
    lemma_slot(state.windows, number);
    if has_window(state.windows, number) {
        assert forall|j: int| 0 <= j < after.entries.len() implies has_window(
            after.windows,
            (#[trigger] after.entries[j]).window_number,
        ) by {
            let at = window_slot(state.windows, state.entries[j].window_number);
            lemma_slot(state.windows, state.entries[j].window_number);
            lemma_known_window(after.windows, at);
        }
        lemma_known_window(after.windows, slot);
    } else if state.windows.len() < MAX_HISTORY_SCAN_WINDOWS {
        assert forall|i: int, j: int| 0 <= i < j < after.windows.len() implies after.windows[i].window_number
            < after.windows[j].window_number by {
            if j == slot {
                assert(after.windows[i] == state.windows[i]);
            } else if i == slot {
                assert(after.windows[j] == state.windows[j - 1]);
                if j - 1 > slot {
                    assert(state.windows[slot].window_number < state.windows[j - 1].window_number);
                }
            }
        }
        assert forall|j: int| 0 <= j < after.entries.len() implies has_window(
            after.windows,
            (#[trigger] after.entries[j]).window_number,
        ) by {
            let at = window_slot(state.windows, state.entries[j].window_number);
            lemma_slot(state.windows, state.entries[j].window_number);
            let moved = if at < slot {
                at
            } else {
                at + 1
            };
            assert(after.windows[moved] == state.windows[at]);
            lemma_known_window(after.windows, moved);
        }
        assert forall|j: int| 0 <= j < state.entries.len() implies (#[trigger] state.entries[j]).window_number
            != number by {}
        lemma_tally_none(state.entries, in_window(number));
        lemma_tally_none(state.entries, readable_in_window(number));
        lemma_tally_none(state.entries, opaque_in_window(number));
        assert forall|i: int| 0 <= i < after.windows.len() implies {
            &&& (#[trigger] after.windows[i]).window_number <= after.current_window
            &&& after.windows[i].window_id == window_id_of(after.thread_id, after.windows[i].window_number)
            &&& sums_up(after.windows[i], after.entries)
        } by {
            if i < slot {
                assert(after.windows[i] == state.windows[i]);
            } else if i > slot {
                assert(after.windows[i] == state.windows[i - 1]);
            }
        }
        lemma_known_window(after.windows, slot);
    }
}

/// An entry keeps what holds of every scan.
pub proof fn lemma_entry_inv(state: StateView, timestamp: Seq<char>, source: SourceRef, projection: ProjectedView)
    requires
        state.inv(),
        explains_itself(projection),
    ensures
        state.with_entry(timestamp, source, projection).inv(),
        state.kept_by(state.with_entry(timestamp, source, projection)),
        state.with_entry(timestamp, source, projection).current_window == state.current_window,
{
    let after = state.with_entry(timestamp, source, projection);
    if state.entries.len() < MAX_HISTORY_SCAN_RECORDS && state.admits_window(state.current_window) {
        lemma_window_inv(state, state.current_window, None);
        let opened = state.with_window(state.current_window, None);
        let slot = window_slot(opened.windows, state.current_window);
        let entry = after.entries.last();
        lemma_slot(opened.windows, state.current_window);
        assert(after.entries =~= opened.entries.push(entry));
        assert forall|i: int| 0 <= i < after.windows.len() implies {
            &&& (#[trigger] after.windows[i]).window_number == opened.windows[i].window_number
            &&& after.windows[i].window_id == opened.windows[i].window_id
            &&& sums_up(after.windows[i], after.entries)
        } by {
            let number = opened.windows[i].window_number;
            lemma_tally_push(opened.entries, entry, in_window(number));
            lemma_tally_push(opened.entries, entry, readable_in_window(number));
            lemma_tally_push(opened.entries, entry, opaque_in_window(number));
            if i != slot {
                lemma_known_window(opened.windows, i);
            }
        }
        assert forall|j: int| 0 <= j < after.entries.len() implies has_window(
            after.windows,
            (#[trigger] after.entries[j]).window_number,
        ) by {
            let number = after.entries[j].window_number;
            lemma_slot(opened.windows, number);
            lemma_known_window(after.windows, window_slot(opened.windows, number));
        }
        assert forall|i: int, j: int| 0 <= i < j < after.entries.len() implies after.entries[i].window_number
            <= after.entries[j].window_number by {
            if j == opened.entries.len() {
                let number = opened.entries[i].window_number;
                lemma_slot(opened.windows, number);
            }
        }
    }
}

/// The items of a replacement history keep what holds of every scan.
proof fn lemma_replacements_inv(
    state: StateView,
    items: Seq<ResponseItem>,
    timestamp: Seq<char>,
    ordinal: Option<u64>,
    physical_record: usize,
)
    requires
        state.inv(),
    ensures
        state.with_replacements(items, timestamp, ordinal, physical_record).inv(),
        state.kept_by(state.with_replacements(items, timestamp, ordinal, physical_record)),
        state.with_replacements(items, timestamp, ordinal, physical_record).current_window
            == state.current_window,
    decreases items.len(),
{
    if items.len() > 0 {
        lemma_replacements_inv(state, items.drop_last(), timestamp, ordinal, physical_record);
        let before = state.with_replacements(items.drop_last(), timestamp, ordinal, physical_record);
        let noted = StateView { tool_calls: calls_after(items.last(), before.tool_calls), ..before };
        let source = SourceRef {
            ordinal,
            physical_record,
            replacement_index: Some((items.len() - 1) as usize),
        };
        let projection = projected_response(items.last(), before.tool_calls);
        law_response_explains_itself(items.last(), before.tool_calls);
        lemma_entry_inv(noted, timestamp, source, projection);
    }
}

/// A compaction keeps what holds of every scan, and the entries before it.
pub proof fn law_compaction_keeps_scan(
    state: StateView,
    item: CompactedItem,
    timestamp: Seq<char>,
    ordinal: Option<u64>,
    physical_record: usize,
)
    requires
        state.inv(),
    ensures
        state.compacted(item, timestamp, ordinal, physical_record).inv(),
        state.kept_by(state.compacted(item, timestamp, ordinal, physical_record)),
        state.current_window <= state.compacted(item, timestamp, ordinal, physical_record).current_window,
{
    if !state.inherited(ordinal) {
        if let Some(number) = item.window_number {
            if number >= state.current_window {
                let moved = StateView { current_window: number, ..state };
                lemma_window_inv(moved, number, opt_view(item.window_id));
                let opened = moved.with_window(number, opt_view(item.window_id));
                let source = SourceRef { ordinal, physical_record, replacement_index: None };
                lemma_entry_inv(opened, timestamp, source, boundary_view());
                let bounded = opened.with_entry(timestamp, source, boundary_view());
                if let Some(items) = item.replacement_history {
                    lemma_replacements_inv(bounded, items@, timestamp, ordinal, physical_record);
                    lemma_replacements_inv(
                        bounded,
                        items@.take(MAX_HISTORY_REPLACEMENT_ITEMS as int),
                        timestamp,
                        ordinal,
                        physical_record,
                    );
                }
            }
        }
    }
}

/// Every record keeps what holds of every scan, and the entries before it.
pub proof fn law_record_keeps_scan(state: StateView, line: RolloutLine)
    requires
        state.inv(),
    ensures
        state.after_line(line).inv(),
        state.kept_by(state.after_line(line)),
{
    match line.item {
        RolloutItem::SessionMeta(_) => {},
        RolloutItem::Compacted(compacted) => {
            law_compaction_keeps_scan(state, compacted, line.timestamp@, line.ordinal, state.record_number);
        },
        item => {
            let noted = StateView { tool_calls: calls_after_record(item, state.tool_calls), ..state };
            if let Some(projection) = projected_record(item, state.tool_calls) {
                law_projection_explains_itself(item, state.tool_calls);
                let source = SourceRef {
                    ordinal: line.ordinal,
                    physical_record: state.record_number,
                    replacement_index: None,
                };
                lemma_entry_inv(noted, line.timestamp@, source, projection);
            }
        },
    }
}

/// Every reply of the decoder keeps what holds of every scan, and the entries before it.
pub proof fn law_decode_keeps_scan(state: StateView, decoded: Result<RolloutLine, String>)
    requires
        state.inv(),
    ensures
        state.after_decode(decoded).0.inv(),
        state.kept_by(state.after_decode(decoded).0),
{
    match decoded {
        Ok(line) => {
            law_record_keeps_scan(state, line);
            if let RolloutItem::SessionMeta(meta) = line.item {
                let named = StateView {
                    saw_identity: true,
                    ordinal_floor: lineage_floor(meta),
                    info: InfoView { lineage_unavailable: has_lineage(meta), ..state.info },
                    ..state
                };
                lemma_window_inv(named, 0, opt_view(meta.context_window_id));
            }
        },
        Err(_) => {},
    }
}

/// Every read keeps what holds of every scan, and adds no entry.
pub proof fn law_read_keeps_scan(state: StateView, read: ReadOutcome)
    requires
        state.inv(),
    ensures
        state.before_read().inv(),
        state.after_read(read).0.inv(),
        state.after_read(read).0.entries == state.entries,
        state.after_read(read).0.windows == state.windows,
        state.after_read(read).0.saw_identity == state.saw_identity,
{
}

/// What happens to a scan.
pub enum ScanEvent {
    /// Another record was asked for and read.
    Read(ReadOutcome),
    /// The decoder replied to a record.
    Decoded(Result<RolloutLine, String>),
}

impl StateView {
    /// The scan after a row of events.
    pub open spec fn ran(self, events: Seq<ScanEvent>) -> StateView
        decreases events.len(),
    {
        if events.len() == 0 {
            self
        } else {
            let before = self.ran(events.drop_last());
            match events.last() {
                ScanEvent::Read(read) => before.before_read().after_read(read).0,
                ScanEvent::Decoded(decoded) => before.after_decode(decoded).0,
            }
        }
    }
}

/// Whatever records are read and however they are decoded, the bounds, the order, the counts and the
/// references hold of the scan, and all its windows and entries carry the ID of its thread.
pub proof fn law_every_scan_holds(thread_id: Seq<char>, snapshot_len: u64, events: Seq<ScanEvent>)
    ensures
        StateView::fresh(thread_id, snapshot_len).ran(events).inv(),
        StateView::fresh(thread_id, snapshot_len).ran(events).thread_id == thread_id,
    decreases events.len(),
{
    if events.len() == 0 {
        law_fresh_scan(thread_id, snapshot_len);
    } else {
        law_every_scan_holds(thread_id, snapshot_len, events.drop_last());
        let before = StateView::fresh(thread_id, snapshot_len).ran(events.drop_last());
        match events.last() {
            ScanEvent::Read(read) => {
                law_read_keeps_scan(before, read);
                law_read_keeps_scan(before.before_read(), read);
            },
            ScanEvent::Decoded(decoded) => {
                law_decode_keeps_scan(before, decoded);
            },
        }
    }
}

/// One turn of a scan: what came of reading a record, and the decoder's reply to it, which is not looked
/// at where the record is not to be decoded.
pub struct Turn {
    pub read: ReadOutcome,
    pub decoded: Result<RolloutLine, String>,
}

impl StateView {
    /// The scan after one turn, and whether another follows.
    pub open spec fn turned(self, turn: Turn) -> (StateView, bool) {
        if self.info.records_scanned >= MAX_HISTORY_SCAN_RECORDS {
            (self.before_read(), false)
        } else {
            let (read, step) = self.after_read(turn.read);
            if step is Decode {
                let (decoded, last) = read.after_decode(turn.decoded);
                (decoded, last is Next)
            } else {
                (read, step is Next)
            }
        }
    }

    /// The scan after a row of turns, no more of them than it takes, and whether another follows.
    pub open spec fn driven(self, turns: Seq<Turn>) -> (StateView, bool)
        decreases turns.len(),
    {
        if turns.len() == 0 {
            (self, true)
        } else {
            let (before, more) = self.driven(turns.drop_last());
            if more {
                before.turned(turns.last())
            } else {
                (before, false)
            }
        }
    }

    /// What holds of a scan that is driven in turn: its entries are in the order of the records, all from
    /// records that were read, and it stays within the limit on records.
    pub open spec fn in_turn(self) -> bool {
        &&& in_record_order(self.entries)
        &&& forall|j: int|
            0 <= j < self.entries.len() ==> (#[trigger] self.entries[j]).source.physical_record
                < self.physical_record
        &&& self.info.records_scanned <= MAX_HISTORY_SCAN_RECORDS
    }
}

/// Where an item stands within its record: the record itself first, then the items of its replacement
/// history.
pub open spec fn place_in_record(source: SourceRef) -> int {
    match source.replacement_index {
        None => 0,
        Some(index) => index + 1,
    }
}

/// `left` comes from an earlier record than `right`, or from an earlier place in the same one.
pub open spec fn recorded_before(left: SourceRef, right: SourceRef) -> bool {
    left.physical_record < right.physical_record || (left.physical_record == right.physical_record
        && place_in_record(left) < place_in_record(right))
}

/// Each entry was recorded before those behind it.
pub open spec fn in_record_order(entries: Seq<EntryView>) -> bool {
    forall|i: int, j: int|
        0 <= i < j < entries.len() ==> recorded_before((#[trigger] entries[i]).source, (
        #[trigger] entries[j]).source)
}

/// An entry that was recorded behind all others keeps their order.
proof fn lemma_entry_order(state: StateView, timestamp: Seq<char>, source: SourceRef, projection: ProjectedView)
    requires
        in_record_order(state.entries),
        forall|j: int|
            0 <= j < state.entries.len() ==> recorded_before((#[trigger] state.entries[j]).source, source),
    ensures
        ({
            let after = state.with_entry(timestamp, source, projection);
            &&& in_record_order(after.entries)
            &&& after.physical_record == state.physical_record
            &&& after.info.records_scanned == state.info.records_scanned
            &&& forall|j: int|
                0 <= j < after.entries.len() ==> (#[trigger] after.entries[j]).source == source
                    || recorded_before(after.entries[j].source, source)
        }),
{
    let after = state.with_entry(timestamp, source, projection);
    assert(after.entries == state.entries || (after.entries.drop_last() =~= state.entries
        && after.entries.len() > 0 && after.entries.last().source == source));
    assert forall|j: int| 0 <= j < after.entries.len() implies (#[trigger] after.entries[j]).source == source
        || recorded_before(after.entries[j].source, source) by {
        if after.entries != state.entries && j < after.entries.len() - 1 {
            assert(after.entries.drop_last()[j] == after.entries[j]);
        }
    }
    assert forall|i: int, j: int| 0 <= i < j < after.entries.len() implies recorded_before(
        (#[trigger] after.entries[i]).source,
        (#[trigger] after.entries[j]).source,
    ) by {
        if after.entries != state.entries {
            assert(after.entries.drop_last()[i] == after.entries[i]);
            if j < after.entries.len() - 1 {
                assert(after.entries.drop_last()[j] == after.entries[j]);
            }
        }
    }
}

/// The items of a replacement history follow the record that they belong to in their own order.
proof fn lemma_replacements_order(
    state: StateView,
    items: Seq<ResponseItem>,
    timestamp: Seq<char>,
    ordinal: Option<u64>,
    physical_record: usize,
)
    requires
        items.len() <= MAX_HISTORY_REPLACEMENT_ITEMS,
        in_record_order(state.entries),
        forall|j: int|
            0 <= j < state.entries.len() ==> (#[trigger] state.entries[j]).source.physical_record
                < physical_record || (state.entries[j].source.physical_record == physical_record
                && place_in_record(state.entries[j].source) == 0),
    ensures
        ({
            let after = state.with_replacements(items, timestamp, ordinal, physical_record);
            &&& in_record_order(after.entries)
            &&& after.physical_record == state.physical_record
            &&& after.info.records_scanned == state.info.records_scanned
            &&& forall|j: int|
                0 <= j < after.entries.len() ==> (#[trigger] after.entries[j]).source.physical_record
                    < physical_record || (after.entries[j].source.physical_record == physical_record
                    && place_in_record(after.entries[j].source) <= items.len())
        }),
    decreases items.len(),
{
    if items.len() > 0 {
        lemma_replacements_order(state, items.drop_last(), timestamp, ordinal, physical_record);
        let before = state.with_replacements(items.drop_last(), timestamp, ordinal, physical_record);
        let noted = StateView { tool_calls: calls_after(items.last(), before.tool_calls), ..before };
        let source = SourceRef {
            ordinal,
            physical_record,
            replacement_index: Some((items.len() - 1) as usize),
        };
        lemma_entry_order(noted, timestamp, source, projected_response(items.last(), before.tool_calls));
    }
}

/// A record that comes behind all others keeps their order.
proof fn lemma_line_order(state: StateView, line: RolloutLine)
    requires
        in_record_order(state.entries),
        forall|j: int|
            0 <= j < state.entries.len() ==> (#[trigger] state.entries[j]).source.physical_record
                < state.record_number,
    ensures
        ({
            let after = state.after_line(line);
            &&& in_record_order(after.entries)
            &&& after.physical_record == state.physical_record
            &&& after.info.records_scanned == state.info.records_scanned
            &&& forall|j: int|
                0 <= j < after.entries.len() ==> (#[trigger] after.entries[j]).source.physical_record
                    <= state.record_number
        }),
{
    let source = SourceRef {
        ordinal: line.ordinal,
        physical_record: state.record_number,
        replacement_index: None,
    };
    match line.item {
        RolloutItem::SessionMeta(_) => {},
        RolloutItem::Compacted(item) => {
            if !state.inherited(line.ordinal) {
                if let Some(number) = item.window_number {
                    let moved = StateView { current_window: number, ..state };
                    let opened = moved.with_window(number, opt_view(item.window_id));
                    lemma_entry_order(opened, line.timestamp@, source, boundary_view());
                    let bounded = opened.with_entry(line.timestamp@, source, boundary_view());
                    if let Some(items) = item.replacement_history {
                        let taken = if items@.len() <= MAX_HISTORY_REPLACEMENT_ITEMS {
                            items@
                        } else {
                            items@.take(MAX_HISTORY_REPLACEMENT_ITEMS as int)
                        };
                        lemma_replacements_order(
                            bounded,
                            taken,
                            line.timestamp@,
                            line.ordinal,
                            state.record_number,
                        );
                    }
                }
            }
        },
        item => {
            if let Some(projection) = projected_record(item, state.tool_calls) {
                let noted = StateView { tool_calls: calls_after_record(item, state.tool_calls), ..state };
                lemma_entry_order(noted, line.timestamp@, source, projection);
            }
        },
    }
}

/// One turn keeps what holds of a scan that is driven in turn.
proof fn lemma_turn(state: StateView, turn: Turn)
    requires
        state.inv(),
        state.in_turn(),
        state.physical_record < usize::MAX,
    ensures
        state.turned(turn).0.inv(),
        state.turned(turn).0.in_turn(),
        state.turned(turn).0.physical_record <= state.physical_record + 1,
        state.turned(turn).0.thread_id == state.thread_id,
{
    law_read_keeps_scan(state, turn.read);
    if state.info.records_scanned < MAX_HISTORY_SCAN_RECORDS {
        let (read, step) = state.after_read(turn.read);
        if step is Decode {
            law_decode_keeps_scan(read, turn.decoded);
            if let Ok(line) = turn.decoded {
                lemma_line_order(read, line);
            }
        }
    }
}

/// Whatever a scan that is driven in turn reads: its entries are in the order of the records and their
/// items, their windows never fall, their references tell the record, the thread and the window, it stays
/// within the limit on records, it is complete exactly where nothing was left out and no error was met,
/// and a corrupt one has an error to show.
pub proof fn law_driven_scan_is_in_order(thread_id: Seq<char>, snapshot_len: u64, turns: Seq<Turn>)
    requires
        turns.len() <= usize::MAX,
    ensures
        ({
            let scan = StateView::fresh(thread_id, snapshot_len).driven(turns).0;
            &&& scan.inv()
            &&& scan.thread_id == thread_id
            &&& in_record_order(scan.entries)
            &&& forall|i: int, j: int|
                0 <= i < j < scan.entries.len() ==> (#[trigger] scan.entries[i]).window_number <= (
                #[trigger] scan.entries[j]).window_number
            &&& forall|j: int|
                0 <= j < scan.entries.len() ==> {
                    &&& (#[trigger] scan.entries[j]).item_id == item_id_of(scan.entries[j].source)
                    &&& scan.entries[j].window_id == window_id_of(thread_id, scan.entries[j].window_number)
                }
            &&& scan.info.records_scanned <= MAX_HISTORY_SCAN_RECORDS
            &&& scan.info.complete <==> !scan.info.truncated && scan.info.errors.len() == 0
            &&& scan.info.corrupt ==> scan.info.errors.len() > 0
        }),
{
    lemma_driven(thread_id, snapshot_len, turns);
}

/// Turns keep what holds of a scan that is driven in turn.
proof fn lemma_driven(thread_id: Seq<char>, snapshot_len: u64, turns: Seq<Turn>)
    requires
        turns.len() <= usize::MAX,
    ensures
        ({
            let scan = StateView::fresh(thread_id, snapshot_len).driven(turns).0;
            &&& scan.inv()
            &&& scan.in_turn()
            &&& scan.physical_record <= turns.len()
            &&& scan.thread_id == thread_id
        }),
    decreases turns.len(),
{
    if turns.len() == 0 {
        law_fresh_scan(thread_id, snapshot_len);
    } else {
        lemma_driven(thread_id, snapshot_len, turns.drop_last());
        let (before, more) = StateView::fresh(thread_id, snapshot_len).driven(turns.drop_last());
        if more {
            lemma_turn(before, turns.last());
        }
    }
}

/// A record that shows something becomes an entry with its text, its references and its time, in the
/// current window. Where there is no room for it, the scan says that it is neither whole nor complete.
pub proof fn law_records_become_entries(state: StateView, line: RolloutLine)
    requires
        !state.inherited(line.ordinal),
        projected_record(line.item, state.tool_calls) is Some,
    ensures
        ({
            let after = state.after_line(line);
            let source = SourceRef {
                ordinal: line.ordinal,
                physical_record: state.record_number,
                replacement_index: None,
            };
            let entry = EntryView {
                item_id: item_id_of(source),
                window_number: state.current_window,
                window_id: window_id_of(state.thread_id, state.current_window),
                timestamp: line.timestamp@,
                source,
                projection: projected_record(line.item, state.tool_calls)->0,
            };
            ||| after.entries == state.entries.push(entry)
            ||| after.entries == state.entries && after.info.truncated && !after.info.complete
        }),
{
}

/// A scan that reaches the end of its records and is complete has read all of them.
pub proof fn law_complete_scan_read_everything(state: StateView, read: ReadOutcome)
    requires
        read matches ReadOutcome::Bytes(bytes) && bytes@.len() == 0,
    ensures
        state.after_read(read).0.info.complete ==> state.bytes_scanned >= state.snapshot_len,
{
}

/// A scan learns whose thread it reads from session metadata with that thread's ID, and from nothing
/// else.
pub proof fn law_scan_belongs_to_its_thread(state: StateView, decoded: Result<RolloutLine, String>)
    requires
        !state.saw_identity,
    ensures
        state.after_decode(decoded).0.saw_identity <==> (decoded matches Ok(line) && line.item matches
            RolloutItem::SessionMeta(meta) && meta.id@ == state.thread_id),
        !state.after_decode(decoded).0.saw_identity ==> state.after_decode(decoded).1 is Fail,
{
}

/// A record of inherited history adds no entry and no window.
pub proof fn law_inherited_records_add_nothing(state: StateView, line: RolloutLine)
    requires
        state.inherited(line.ordinal),
    ensures
        state.after_line(line).entries == state.entries,
        state.after_line(line).windows == state.windows,
        state.after_line(line).tool_calls == state.tool_calls,
{
}

/// Where the digits of a decimal text end, another text that continues it differently shows.
pub proof fn lemma_digits_end(a: Seq<char>, b: Seq<char>, rest_a: Seq<char>, rest_b: Seq<char>)
    requires
        all_digits(a),
        all_digits(b),
        rest_a.len() > 0 ==> !is_digit(rest_a[0]),
        rest_b.len() > 0 ==> !is_digit(rest_b[0]),
        a + rest_a == b + rest_b,
    ensures
        a == b,
        rest_a == rest_b,
{
    let whole = a + rest_a;
    if a.len() < b.len() {
        assert(whole[a.len() as int] == rest_a[0]);
        assert((b + rest_b)[a.len() as int] == b[a.len() as int]);
    }
    if b.len() < a.len() {
        assert(whole[b.len() as int] == a[b.len() as int]);
        assert((b + rest_b)[b.len() as int] == rest_b[0]);
    }
    assert(a =~= whole.take(a.len() as int));
    assert(b =~= (b + rest_b).take(b.len() as int));
    assert(rest_a =~= whole.skip(a.len() as int));
    assert(rest_b =~= (b + rest_b).skip(b.len() as int));
}

/// The part of a reference behind its first number.
spec fn replacement_part(source: SourceRef) -> Seq<char> {
    match source.replacement_index {
        Some(index) => ":replacement:"@ + decimal(index as nat),
        None => Seq::empty(),
    }
}

/// The number that a reference starts with.
spec fn leading_number(source: SourceRef) -> nat {
    match source.ordinal {
        Some(ordinal) => ordinal as nat,
        None => source.physical_record as nat,
    }
}

/// A reference tells by its first character whether it is an ordinal, and goes on with its number.
proof fn lemma_item_id_parts(source: SourceRef)
    ensures
        ({
            let id = item_id_of(source);
            let rest = decimal(leading_number(source)) + replacement_part(source);
            match source.ordinal {
                Some(_) => id.len() > 0 && id[0] == 'o' && id.skip(8) == rest,
                None => id.len() > 0 && id[0] == 'r' && id.skip(7) == rest,
            }
        }),
{
    reveal_strlit("ordinal:");
    reveal_strlit("record:");
    let rest = decimal(leading_number(source)) + replacement_part(source);
    match source.ordinal {
        Some(_) => {
            assert(item_id_of(source) =~= "ordinal:"@ + rest);
            assert(("ordinal:"@ + rest).skip(8) =~= rest);
        },
        None => {
            assert(item_id_of(source) =~= "record:"@ + rest);
            assert(("record:"@ + rest).skip(7) =~= rest);
        },
    }
}

/// The part behind the first number starts with no digit and tells the position in a replacement
/// history.
proof fn lemma_replacement_part(source: SourceRef)
    ensures
        replacement_part(source).len() > 0 <==> source.replacement_index is Some,
        replacement_part(source).len() > 0 ==> !is_digit(replacement_part(source)[0]),
        source.replacement_index matches Some(index) ==> digits_value(replacement_part(source).skip(13))
            == index,
{
    reveal_strlit(":replacement:");
    if let Some(index) = source.replacement_index {
        lemma_decimal(index as nat);
        assert(replacement_part(source).skip(13) =~= decimal(index as nat));
    }
}

/// One reference means one place: the same ordinal, or the same record where there is none, and the
/// same position in its replacement history.
pub proof fn law_item_ids_tell_apart(left: SourceRef, right: SourceRef)
    requires
        item_id_of(left) == item_id_of(right),
    ensures
        left.ordinal == right.ordinal,
        left.ordinal is None ==> left.physical_record == right.physical_record,
        left.replacement_index == right.replacement_index,
{
    lemma_item_id_parts(left);
    lemma_item_id_parts(right);
    lemma_decimal(leading_number(left));
    lemma_decimal(leading_number(right));
    lemma_replacement_part(left);
    lemma_replacement_part(right);
    lemma_digits_end(
        decimal(leading_number(left)),
        decimal(leading_number(right)),
        replacement_part(left),
        replacement_part(right),
    );
}

} // verus!
