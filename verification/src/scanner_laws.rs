//! What a scan takes from the records, stated over the records and the entries and windows they become.

use vstd::prelude::*;

use crate::json::json_parsed;
use crate::projection::calls_after;
use crate::projection::projected_record;
use crate::projection::projected_response;
use crate::projection::ToolCallView;
use crate::records::CompactedItem;
use crate::records::ResponseItem;
use crate::records::RolloutItem;
use crate::records::RolloutLine;
use crate::records::SessionMeta;
use crate::scanner::bytes_to_read;
use crate::scanner::has_window;
use crate::scanner::window_slot;
use crate::scanner::EntryView;
use crate::scanner::ReadOutcome;
use crate::scanner::SourceRef;
use crate::scanner::StateView;
use crate::scanner::StepView;
use crate::scanner::WindowView;
use crate::text::decimal;
use crate::text::opt_view;

verus! {

/// Where the windows are in order, a number that one of them has is found at its place, and no other is.
proof fn lemma_window_place(windows: Seq<WindowView>, number: u64, index: int)
    requires
        forall|i: int, j: int| 0 <= i < j < windows.len() ==> windows[i].window_number < windows[j].window_number,
    ensures
        0 <= window_slot(windows, number) <= windows.len(),
        0 <= index < windows.len() && windows[index].window_number == number ==> window_slot(windows, number)
            == index,
        has_window(windows, number) <==> exists|i: int|
            0 <= i < windows.len() && (#[trigger] windows[i]).window_number == number,
    decreases windows.len(),
{
    if windows.len() > 0 {
        let rest = windows.drop_first();
        assert forall|i: int, j: int| 0 <= i < j < rest.len() implies rest[i].window_number
            < rest[j].window_number by {
            assert(rest[i] == windows[i + 1] && rest[j] == windows[j + 1]);
        }
        lemma_window_place(rest, number, index - 1);
        if 0 < index < windows.len() {
            assert(rest[index - 1] == windows[index]);
            assert(windows[0].window_number < windows[index].window_number);
        }
        if windows[0].window_number >= number {
            if exists|i: int| 0 <= i < windows.len() && (#[trigger] windows[i]).window_number == number {
                let i = choose|i: int| 0 <= i < windows.len() && (#[trigger] windows[i]).window_number == number;
                if i > 0 {
                    assert(windows[0].window_number < windows[i].window_number);
                }
            }
        } else {
            let slot = window_slot(rest, number);
            if slot < rest.len() {
                assert(windows[slot + 1] == rest[slot]);
            }
            if exists|i: int| 0 <= i < windows.len() && (#[trigger] windows[i]).window_number == number {
                let i = choose|i: int| 0 <= i < windows.len() && (#[trigger] windows[i]).window_number == number;
                assert(rest[i - 1] == windows[i]);
                assert(rest[i - 1].window_number == number);
            }
            if exists|i: int| 0 <= i < rest.len() && (#[trigger] rest[i]).window_number == number {
                let i = choose|i: int| 0 <= i < rest.len() && (#[trigger] rest[i]).window_number == number;
                assert(windows[i + 1] == rest[i]);
            }
        }
    }
}

/// One of the windows has the number.
pub open spec fn knows_window(windows: Seq<WindowView>, number: u64) -> bool {
    exists|i: int| 0 <= i < windows.len() && (#[trigger] windows[i]).window_number == number
}

/// There is room for another entry of the window: fewer than 10,000 entries, and the window known or fewer
/// than 512 windows.
pub open spec fn has_room(state: StateView, number: u64) -> bool {
    state.entries.len() < 10_000 && (knows_window(state.windows, number) || state.windows.len() < 512)
}

/// An entry of the window that comes from the record with the number `record`.
pub open spec fn comes_from(
    entry: EntryView,
    thread_id: Seq<char>,
    window: u64,
    line: RolloutLine,
    record: usize,
    replacement: Option<usize>,
) -> bool {
    &&& entry.window_number == window
    &&& entry.window_id == thread_id + ":"@ + decimal(window as nat)
    &&& entry.timestamp == line.timestamp@
    &&& entry.source.ordinal == line.ordinal
    &&& entry.source.physical_record == record
    &&& entry.source.replacement_index == replacement
    &&& entry.item_id == match (line.ordinal, replacement) {
        (Some(ordinal), None) => "ordinal:"@ + decimal(ordinal as nat),
        (None, None) => "record:"@ + decimal(record as nat),
        (Some(ordinal), Some(index)) => "ordinal:"@ + decimal(ordinal as nat) + ":replacement:"@ + decimal(
            index as nat,
        ),
        (None, Some(index)) => "record:"@ + decimal(record as nat) + ":replacement:"@ + decimal(index as nat),
    }
}

/// A record below the start of the thread's own history.
pub open spec fn is_below(start: Option<u64>, ordinal: Option<u64>) -> bool {
    start matches Some(start) && ordinal matches Some(ordinal) && ordinal < start
}

/// A record of the thread's own history that shows something becomes one entry behind all others, in the
/// current window, with its own time, ordinal and number, as long as there is room; otherwise the scan says
/// that something was left out. Nothing else of the scan changes but the count of what shows no text, and
/// the calls that are remembered.
pub proof fn law_shown_records_are_kept(state: StateView, line: RolloutLine)
    requires
        state.inv(),
        !is_below(state.ordinal_floor, line.ordinal),
        line.item is ResponseItem || line.item is UserMessage || line.item is AgentMessage
            || line.item is InterAgentCommunication,
    ensures
        ({
            let after = state.after_line(line);
            let room = has_room(state, state.current_window);
            &&& room ==> {
                &&& after.entries.len() == state.entries.len() + 1
                &&& after.entries.take(state.entries.len() as int) == state.entries
                &&& comes_from(
                    after.entries.last(),
                    state.thread_id,
                    state.current_window,
                    line,
                    state.record_number,
                    None,
                )
                &&& projected_record(line.item, state.tool_calls) == Some(after.entries.last().projection)
                &&& after.info.complete == state.info.complete
                &&& after.info.truncated == state.info.truncated
                &&& state.info.opaque_records < usize::MAX ==> after.info.opaque_records == state.info.opaque_records
                    + (if after.entries.last().projection.opaque {
                    1int
                } else {
                    0int
                })
            }
            &&& !room ==> after.entries == state.entries && after.info.truncated && !after.info.complete
            &&& after.current_window == state.current_window
            &&& after.info.corrupt == state.info.corrupt
            &&& after.info.errors == state.info.errors
            &&& after.info.records_scanned == state.info.records_scanned
        }),
{
    lemma_window_place(state.windows, state.current_window, 0);
    let after = state.after_line(line);
    assert(after.entries.take(state.entries.len() as int) =~= state.entries);
}

/// Records that only steer the host become no entry: those of turns and of the world's state leave the scan
/// as it is, the others are counted as showing no text.
pub proof fn law_steering_records_show_nothing(state: StateView, line: RolloutLine)
    requires
        !is_below(state.ordinal_floor, line.ordinal),
        state.info.opaque_records < usize::MAX,
    ensures
        line.item is TurnContext || line.item is WorldState ==> state.after_line(line) == state,
        line.item is InterAgentCommunicationMetadata || line.item is TokenUsageRecord || line.item is SecurityRiskScore
            || line.item is RealtimeItem || line.item is OtherEvent ==> {
            let after = state.after_line(line);
            &&& after.entries == state.entries
            &&& after.windows == state.windows
            &&& after.tool_calls == state.tool_calls
            &&& after.info.opaque_records == state.info.opaque_records + 1
            &&& after.info.complete == state.info.complete
        },
{
}

/// A record below the start of the thread's own history is passed over and counted, whatever it holds.
pub proof fn law_inherited_records_are_counted(state: StateView, line: RolloutLine)
    requires
        is_below(state.ordinal_floor, line.ordinal),
        !(line.item is SessionMeta),
        state.info.inherited_records_skipped < usize::MAX,
    ensures
        ({
            let after = state.after_line(line);
            &&& after.entries == state.entries
            &&& after.windows == state.windows
            &&& after.current_window == state.current_window
            &&& after.info.inherited_records_skipped == state.info.inherited_records_skipped + 1
            &&& after.info.complete == state.info.complete
        }),
{
}

/// Session metadata behind the first record add nothing, and the scan is no longer complete.
pub proof fn law_second_identity_is_an_error(state: StateView, line: RolloutLine)
    requires
        line.item is SessionMeta,
    ensures
        ({
            let after = state.after_line(line);
            &&& after.entries == state.entries
            &&& after.windows == state.windows
            &&& !after.info.complete
            &&& after.ordinal_floor == state.ordinal_floor
        }),
{
}

/// The first record decides where the thread's own history starts: behind every bound that it names. Where
/// it names any, or a thread that it was forked from, the history before is said to be unavailable. It opens
/// the first window.
pub proof fn law_first_record_starts_the_history(state: StateView, meta: SessionMeta, line: RolloutLine, other: RolloutLine)
    requires
        state.inv(),
        !state.saw_identity,
        state.windows.len() == 0,
        line.item == RolloutItem::SessionMeta(meta),
        meta.id@ == state.thread_id,
        !(other.item is SessionMeta),
    ensures
        ({
            let (after, step) = state.after_decode(Ok(line));
            let passed = other.ordinal matches Some(ordinal) && ((meta.history_base_end_ordinal matches Some(bound)
                && ordinal < bound) || (meta.forked_from_ordinal_exclusive matches Some(bound) && ordinal < bound) || (
            meta.subagent_history_start_ordinal matches Some(bound) && ordinal < bound));
            &&& step is Next
            &&& after.saw_identity
            &&& is_below(after.ordinal_floor, other.ordinal) <==> passed
            &&& after.info.lineage_unavailable <==> (meta.history_base_end_ordinal is Some || meta.forked_from_id is Some
                || meta.forked_from_ordinal_exclusive is Some || meta.subagent_history_start_ordinal is Some)
            &&& after.windows.len() == 1
            &&& after.windows[0].window_number == 0
            &&& after.windows[0].window_id == state.thread_id + ":"@ + decimal(0)
            &&& after.windows[0].context_window_id == opt_view(meta.context_window_id)
            &&& after.windows[0].item_count == 0
            &&& after.entries == state.entries
        }),
{
}

/// A scan fails where its first record is not the metadata of its own thread.
pub proof fn law_foreign_records_fail(state: StateView, line: RolloutLine)
    requires
        !state.saw_identity,
        line.item matches RolloutItem::SessionMeta(meta) ==> meta.id@ != state.thread_id,
    ensures
        state.after_decode(Ok(line)).1 is Fail,
        state.after_decode(Ok(line)).0 == state,
        state.outcome() is Err,
{
}

/// What a scan gives are its entries, its windows and what it says of itself.
pub proof fn law_scan_gives_its_entries(state: StateView)
    requires
        state.saw_identity,
    ensures
        state.outcome() matches Ok(scan) && scan.entries == state.entries && scan.windows == state.windows
            && scan.info == state.info,
{
}

/// A compaction without a window, or to an earlier one, is an error that spoils the scan and adds no entry.
pub proof fn law_bad_compaction_is_an_error(state: StateView, item: CompactedItem, line: RolloutLine)
    requires
        line.item == RolloutItem::Compacted(item),
        !is_below(state.ordinal_floor, line.ordinal),
        item.window_number matches Some(number) ==> number < state.current_window,
    ensures
        ({
            let after = state.after_line(line);
            &&& after.entries == state.entries
            &&& after.windows == state.windows
            &&& after.current_window == state.current_window
            &&& after.info.corrupt
            &&& !after.info.complete
        }),
{
}

/// One entry more, in a window for which there is room.
proof fn lemma_entry_added(
    state: StateView,
    timestamp: Seq<char>,
    source: SourceRef,
    projection: crate::projection::ProjectedView,
)
    requires
        state.inv(),
        crate::projection::explains_itself(projection),
        has_room(state, state.current_window),
    ensures
        ({
            let after = state.with_entry(timestamp, source, projection);
            &&& after.inv()
            &&& after.entries.len() == state.entries.len() + 1
            &&& after.entries.take(state.entries.len() as int) == state.entries
            &&& after.entries.last().projection == projection
            &&& after.entries.last().window_number == state.current_window
            &&& after.entries.last().window_id == crate::scanner::window_id_of(state.thread_id, state.current_window)
            &&& after.entries.last().timestamp == timestamp
            &&& after.entries.last().source == source
            &&& after.entries.last().item_id == crate::scanner::item_id_of(source)
            &&& after.current_window == state.current_window
            &&& after.thread_id == state.thread_id
            &&& after.tool_calls == state.tool_calls
            &&& after.info.complete == state.info.complete
            &&& knows_window(after.windows, state.current_window)
        }),
{
    lemma_window_place(state.windows, state.current_window, 0);
    let after = state.with_entry(timestamp, source, projection);
    crate::scanner::lemma_entry_inv(state, timestamp, source, projection);
    assert(after.entries.take(state.entries.len() as int) =~= state.entries);
    assert(has_window(after.windows, after.entries[after.entries.len() - 1].window_number));
    lemma_window_place(after.windows, state.current_window, 0);
}

/// The calls that are known after a row of items.
#[verifier::opaque]
pub open spec fn calls_known(items: Seq<ResponseItem>, calls: Map<Seq<char>, ToolCallView>) -> Map<
    Seq<char>,
    ToolCallView,
>
    decreases items.len(),
{
    if items.len() == 0 {
        calls
    } else {
        calls_after(items.last(), calls_known(items.drop_last(), calls))
    }
}

/// The entries from the place `from` on are the items, one for one and in order, each with its own place in
/// the record, and showing what it shows behind the items before it.
pub open spec fn entries_are_items(
    entries: Seq<EntryView>,
    from: int,
    items: Seq<ResponseItem>,
    thread_id: Seq<char>,
    window: u64,
    line: RolloutLine,
    record: usize,
    calls: Map<Seq<char>, ToolCallView>,
) -> bool {
    &&& entries.len() == from + items.len()
    &&& forall|k: int|
        #![trigger items[k]]
        0 <= k < items.len() ==> comes_from(entries[from + k], thread_id, window, line, record, Some(k as usize))
            && entries[from + k].projection == projected_response(items[k], calls_known(items.take(k), calls))
}

/// The items of a replacement history become entries.
proof fn lemma_replacements(state: StateView, items: Seq<ResponseItem>, line: RolloutLine, record: usize)
    requires
        state.inv(),
        knows_window(state.windows, state.current_window),
        state.entries.len() + items.len() <= 10_000,
        items.len() <= 256,
    ensures
        ({
            let after = state.with_replacements(items, line.timestamp@, line.ordinal, record);
            &&& after.inv()
            &&& after.current_window == state.current_window
            &&& after.thread_id == state.thread_id
            &&& after.info.complete == state.info.complete
            &&& knows_window(after.windows, state.current_window)
            &&& after.tool_calls == calls_known(items, state.tool_calls)
            &&& after.entries.take(state.entries.len() as int) == state.entries
            &&& entries_are_items(
                after.entries,
                state.entries.len() as int,
                items,
                state.thread_id,
                state.current_window,
                line,
                record,
                state.tool_calls,
            )
        }),
    decreases items.len(),
{
    reveal(calls_known);
    if items.len() == 0 {
        assert(state.entries.take(state.entries.len() as int) =~= state.entries);
    } else {
        let shorter = items.drop_last();
        lemma_replacements(state, shorter, line, record);
        let before = state.with_replacements(shorter, line.timestamp@, line.ordinal, record);
        let source = SourceRef {
            ordinal: line.ordinal,
            physical_record: record,
            replacement_index: Some((items.len() - 1) as usize),
        };
        let projection = projected_response(items.last(), before.tool_calls);
        let noted = StateView { tool_calls: calls_after(items.last(), before.tool_calls), ..before };
        crate::projection::law_projection_explains_itself(
            RolloutItem::ResponseItem(items.last()),
            before.tool_calls,
        );
        assert(noted.inv());
        lemma_entry_added(noted, line.timestamp@, source, projection);
        let after = noted.with_entry(line.timestamp@, source, projection);
        lemma_items_continue(state, before.entries, after.entries, items, line, record);
    }
}

/// One more item becomes one more entry.
proof fn lemma_items_continue(
    state: StateView,
    before: Seq<EntryView>,
    after: Seq<EntryView>,
    items: Seq<ResponseItem>,
    line: RolloutLine,
    record: usize,
)
    requires
        items.len() > 0,
        before.take(state.entries.len() as int) == state.entries,
        entries_are_items(
            before,
            state.entries.len() as int,
            items.drop_last(),
            state.thread_id,
            state.current_window,
            line,
            record,
            state.tool_calls,
        ),
        after.len() == before.len() + 1,
        after.take(before.len() as int) == before,
        comes_from(
            after.last(),
            state.thread_id,
            state.current_window,
            line,
            record,
            Some((items.len() - 1) as usize),
        ),
        after.last().projection == projected_response(
            items.last(),
            calls_known(items.drop_last(), state.tool_calls),
        ),
    ensures
        after.take(state.entries.len() as int) == state.entries,
        entries_are_items(
            after,
            state.entries.len() as int,
            items,
            state.thread_id,
            state.current_window,
            line,
            record,
            state.tool_calls,
        ),
{
    let shorter = items.drop_last();
    let from = state.entries.len() as int;
    assert(after.take(from) =~= before.take(from));
    assert forall|k: int| #![trigger items[k]] 0 <= k < items.len() implies comes_from(
        after[from + k],
        state.thread_id,
        state.current_window,
        line,
        record,
        Some(k as usize),
    ) && after[from + k].projection == projected_response(
        items[k],
        calls_known(items.take(k), state.tool_calls),
    ) by {
        if k < shorter.len() {
            assert(items[k] == shorter[k]);
            assert(items.take(k) =~= shorter.take(k));
            assert(after[from + k] == after.take(before.len() as int)[from + k]);
        } else {
            assert(items.take(k) =~= shorter);
            assert(after[from + k] == after.last());
        }
    }
}

/// A compaction to the current window or a later one moves the scan to it, sets its context window, and
/// becomes an entry that shows no text, followed by the items that replace earlier ones, the first 256 of
/// them: as many as were recorded where there is room for all.
pub proof fn law_compaction_moves_on(
    state: StateView,
    item: CompactedItem,
    line: RolloutLine,
    number: u64,
    items: Seq<ResponseItem>,
)
    requires
        state.inv(),
        line.item == RolloutItem::Compacted(item),
        !is_below(state.ordinal_floor, line.ordinal),
        item.window_number == Some(number),
        number >= state.current_window,
        knows_window(state.windows, number) || state.windows.len() < 512,
        match item.replacement_history {
            None => items.len() == 0,
            Some(history) => if history@.len() <= 256 {
                items == history@
            } else {
                items == history@.take(256)
            },
        },
        state.entries.len() + 1 + items.len() <= 10_000,
    ensures
        ({
            let after = state.after_line(line);
            let count = state.entries.len() as int;
            &&& after.current_window == number
            &&& after.entries.take(count) == state.entries
            &&& comes_from(after.entries[count], state.thread_id, number, line, state.record_number, None)
            &&& after.entries[count].projection.role == "system"@
            &&& after.entries[count].projection.kind == "compaction_boundary"@
            &&& after.entries[count].projection.content is None
            &&& after.entries[count].projection.opaque
            &&& entries_are_items(
                after.entries,
                count + 1,
                items,
                state.thread_id,
                number,
                line,
                state.record_number,
                state.tool_calls,
            )
            &&& match item.replacement_history {
                Some(history) => history@.len() > 256 ==> after.info.truncated && !after.info.complete,
                None => true,
            }
            &&& !(item.replacement_history matches Some(history) && history@.len() > 256) ==> after.info.complete
                == state.info.complete
        }),
{
    lemma_window_place(state.windows, number, 0);
    let moved = StateView { current_window: number, ..state };
    assert(moved.inv());
    crate::scanner::lemma_window_inv(moved, number, opt_view(item.window_id));
    let opened = moved.with_window(number, opt_view(item.window_id));
    let source = SourceRef { ordinal: line.ordinal, physical_record: state.record_number, replacement_index: None };
    let boundary = crate::scanner::boundary_view();
    lemma_window_opened(moved, number, opt_view(item.window_id));
    lemma_entry_added(opened, line.timestamp@, source, boundary);
    let bounded = opened.with_entry(line.timestamp@, source, boundary);
    lemma_replacements(bounded, items, line, state.record_number);
    let after = bounded.with_replacements(items, line.timestamp@, line.ordinal, state.record_number);
    let count = state.entries.len() as int;
    assert(after.entries.take(count) =~= after.entries.take(count + 1).take(count));
    assert(after.entries[count] == after.entries.take(count + 1)[count]);
    if item.replacement_history is None {
        assert(items =~= Seq::empty());
    }
}

/// A window that is admitted is known.
proof fn lemma_window_opened(state: StateView, number: u64, context_window_id: Option<Seq<char>>)
    requires
        state.inv(),
        knows_window(state.windows, number) || state.windows.len() < 512,
    ensures
        knows_window(state.with_window(number, context_window_id).windows, number),
        state.admits_window(number),
        state.with_window(number, context_window_id).entries == state.entries,
        state.with_window(number, context_window_id).info == state.info,
{
    lemma_window_place(state.windows, number, 0);
    let after = state.with_window(number, context_window_id);
    let slot = window_slot(state.windows, number);
    assert(after.windows[slot].window_number == number);
}

/// A compaction's own ID becomes the context window of its window; without one the window keeps what is
/// known of it.
pub proof fn law_compaction_names_the_context(state: StateView, number: u64, context_window_id: Option<Seq<char>>, index: int)
    requires
        state.inv(),
        0 <= index < state.windows.len(),
    ensures
        state.windows[index].window_number == number ==> {
            let after = state.with_window(number, context_window_id);
            &&& after.windows.len() == state.windows.len()
            &&& after.windows[index].context_window_id == (if context_window_id is Some {
                context_window_id
            } else {
                state.windows[index].context_window_id
            })
            &&& after.windows[index].item_count == state.windows[index].item_count
        },
{
    lemma_window_place(state.windows, number, index);
}

/// How a read goes on. Where nothing is left, the scan ends, as one that left something out if it has not
/// read what there was. A record larger than 4,194,304 bytes or without its line feed ends it too. A line of
/// white space alone is passed over but counted as a line. Any other line is a record: one that is JSON is
/// decoded, any other is an error.
pub proof fn law_lines_are_records(state: StateView, read: ReadOutcome)
    ensures
        ({
            let (after, step) = state.after_read(read);
            match read {
                ReadOutcome::Failed(_) => step is Stop && after.info.corrupt && !after.info.complete,
                ReadOutcome::Bytes(line) => {
                    let blank = forall|i: int|
                        0 <= i < line@.len() ==> (#[trigger] line@[i] == 32 || line@[i] == 9 || line@[i] == 10
                            || line@[i] == 12 || line@[i] == 13);
                    let whole = 0 < line@.len() <= 4_194_304 && line@.last() == 10;
                    &&& line@.len() == 0 ==> step is Stop && (if state.bytes_scanned < state.snapshot_len {
                        after.info.truncated && !after.info.complete
                    } else {
                        after == state
                    })
                    &&& line@.len() > 0 && !whole ==> step is Stop && after.info.truncated && !after.info.complete
                    &&& line@.len() > 0 && state.bytes_scanned + line@.len() <= u64::MAX ==> after.bytes_scanned
                        == state.bytes_scanned + line@.len()
                    &&& whole && state.physical_record < usize::MAX ==> after.record_number == state.physical_record
                        && after.physical_record == state.physical_record + 1
                    &&& whole && blank ==> step is Next && after.info == state.info
                    &&& whole && !blank ==> {
                        &&& state.info.records_scanned < usize::MAX ==> after.info.records_scanned
                            == state.info.records_scanned + 1
                        &&& match json_parsed(line@) {
                            Ok(value) => step == StepView::Decode(value) && after.info.complete
                                == state.info.complete && after.info.errors == state.info.errors,
                            Err(_) => {
                                &&& state.saw_identity ==> step is Stop && after.info.corrupt && !after.info.complete
                                &&& !state.saw_identity ==> step is Fail
                            },
                        }
                    }
                    &&& after.entries == state.entries
                    &&& after.windows == state.windows
                },
            }
        }),
{
    if let ReadOutcome::Bytes(line) = read {
        let blank = forall|i: int|
            0 <= i < line@.len() ==> (#[trigger] line@[i] == 32 || line@[i] == 9 || line@[i] == 10 || line@[i] == 12
                || line@[i] == 13);
        assert(crate::scanner::blank_bytes(line@) == blank) by {
            if blank {
                assert forall|i: int| 0 <= i < line@.len() implies crate::scanner::ascii_white(
                    #[trigger] line@[i],
                ) by {}
            }
            if crate::scanner::blank_bytes(line@) {
                assert forall|i: int| 0 <= i < line@.len() implies (#[trigger] line@[i] == 32 || line@[i] == 9
                    || line@[i] == 10 || line@[i] == 12 || line@[i] == 13) by {
                    assert(crate::scanner::ascii_white(line@[i]));
                }
            }
        }
    }
}

/// A record that cannot be decoded ends the scan as spoiled, or fails it where it is the first.
pub proof fn law_undecodable_records_end_the_scan(state: StateView, error: String)
    ensures
        state.saw_identity ==> {
            let (after, step) = state.after_decode(Err(error));
            step is Stop && after.info.corrupt && !after.info.complete && after.entries == state.entries
        },
        !state.saw_identity ==> state.after_decode(Err(error)).1 is Fail,
{
}

/// A scan reads at most 10,000 records and 67,108,864 bytes; it says so where it stops at that.
pub proof fn law_scan_limits(state: StateView, snapshot_len: u64)
    ensures
        state.info.records_scanned >= 10_000 ==> state.before_read().info.truncated
            && !state.before_read().info.complete && state.before_read().entries == state.entries,
        state.info.records_scanned < 10_000 ==> state.before_read() == state,
        snapshot_len <= 67_108_864 ==> bytes_to_read(snapshot_len) == snapshot_len,
        snapshot_len > 67_108_864 ==> bytes_to_read(snapshot_len) == 67_108_864,
{
}

/// The first eight errors are kept, each with its first 256 characters, in the order in which they were
/// met.
pub proof fn law_first_errors_are_kept(state: StateView, error: Seq<char>)
    ensures
        !state.with_error(error).info.complete,
        state.info.errors.len() >= 8 ==> state.with_error(error).info.errors == state.info.errors,
        state.info.errors.len() < 8 ==> state.with_error(error).info.errors == state.info.errors.push(
            error.take(
                if error.len() < 256 {
                    error.len() as int
                } else {
                    256
                },
            ),
        ),
{
    let kept = crate::limits::char_range(error, 0, 256);
    assert(kept =~= error.take(
        if error.len() < 256 {
            error.len() as int
        } else {
            256
        },
    ));
}

/// A scan starts with nothing: no entry, no window, no trouble, nothing read, and not knowing whose records
/// it reads.
pub proof fn law_scan_starts_with_nothing(thread_id: Seq<char>, snapshot_len: u64)
    ensures
        ({
            let state = StateView::fresh(thread_id, snapshot_len);
            &&& state.thread_id == thread_id
            &&& state.snapshot_len == snapshot_len
            &&& state.entries.len() == 0
            &&& state.windows.len() == 0
            &&& state.tool_calls == Map::<Seq<char>, ToolCallView>::empty()
            &&& state.info.records_scanned == 0 && state.info.opaque_records == 0
            &&& state.info.inherited_records_skipped == 0
            &&& state.info.errors.len() == 0
            &&& state.info.complete && !state.info.truncated && !state.info.corrupt
            &&& !state.info.lineage_unavailable
            &&& state.current_window == 0
            &&& state.ordinal_floor is None
            &&& state.bytes_scanned == 0 && state.physical_record == 0
            &&& !state.saw_identity
        }),
{
}

} // verus!
