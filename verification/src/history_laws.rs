//! What the history tools show, stated over the scanned entries and the answers themselves.

use vstd::prelude::*;

use crate::history::entry_answer;
use crate::history::entry_metadata_view;
use crate::history::filled;
use crate::history::first_entry;
use crate::history::first_match;
use crate::history::fitting_limit;
use crate::history::item_view;
use crate::history::items_answer;
use crate::history::items_request;
use crate::history::items_to_list;
use crate::history::law_item_pages_tile;
use crate::history::law_listed_items_can_be_read;
use crate::history::law_read_shows_text_in_order;
use crate::history::law_window_pages_tile;
use crate::history::ordered;
use crate::history::part_view;
use crate::history::read_answer;
use crate::history::read_request;
use crate::history::scan_metadata_view;
use crate::history::search_request;
use crate::history::shown_count;
use crate::history::usable_scan;
use crate::history::wanted;
use crate::history::wanted_entries;
use crate::history::windows_answer;
use crate::history::windows_request;
use crate::history::windows_to_list;
use crate::history::ItemsRequestView;
use crate::history::LocalResultView;
use crate::history::ReadRequestView;
use crate::history::ScanFailure;
use crate::history::WindowsRequest;
use crate::json::field_of;
use crate::json::items_in;
use crate::json::json_size;
use crate::json::JsonView;
use crate::json::NumberView;
use crate::limits::cursor_offset;
use crate::records::OutputItemView;
use crate::scanner::in_window;
use crate::scanner::opaque_in_window;
use crate::scanner::readable_in_window;
use crate::scanner::tally;
use crate::scanner::window_id_of;
use crate::scanner::EntryView;
use crate::scanner::ScanResult;
use crate::scanner::ScanView;
use crate::scanner::StateView;
use crate::text::decimal;
use crate::text::law_decimal_round_trip;
use crate::text::law_occurrence;
use crate::text::lemma_decimal;
use crate::text::occurs_at;

verus! {

/// The names in the answers differ: their lengths and first letters.
proof fn lemma_answer_names()
    ensures
        "item_id"@.len() == 7 && "item_id"@[0] == 'i',
        "window_id"@.len() == 9 && "window_id"@[0] == 'w',
        "window_number"@.len() == 13,
        "role"@.len() == 4 && "role"@[0] == 'r',
        "kind"@.len() == 4 && "kind"@[0] == 'k',
        "tool_namespace"@.len() == 14,
        "tool_name"@.len() == 9 && "tool_name"@[0] == 't' && "tool_name"@[1] == 'o',
        "call_id"@.len() == 7 && "call_id"@[0] == 'c' && "call_id"@[1] == 'a',
        "timestamp"@.len() == 9 && "timestamp"@[0] == 't' && "timestamp"@[1] == 'i',
        "unavailable_reason"@.len() == 18,
        "source"@.len() == 6 && "source"@[0] == 's' && "source"@[1] == 'o',
        "opaque"@.len() == 6 && "opaque"@[0] == 'o',
        "source_truncated"@.len() == 16,
        "encrypted_agent_message_replay"@.len() == 30,
        "truncated_content"@.len() == 17 && "truncated_content"@[0] == 't',
        "offset_chars"@.len() == 12,
        "truncated"@.len() == 9 && "truncated"@[0] == 't' && "truncated"@[1] == 'r',
        "content"@.len() == 7 && "content"@[0] == 'c' && "content"@[1] == 'o',
        "next_offset_chars"@.len() == 17 && "next_offset_chars"@[0] == 'n',
        "status"@.len() == 6 && "status"@[0] == 's' && "status"@[1] == 't',
        "reason"@.len() == 6 && "reason"@[0] == 'r',
{
    reveal_strlit("item_id");
    reveal_strlit("window_id");
    reveal_strlit("window_number");
    reveal_strlit("role");
    reveal_strlit("kind");
    reveal_strlit("tool_namespace");
    reveal_strlit("tool_name");
    reveal_strlit("call_id");
    reveal_strlit("timestamp");
    reveal_strlit("unavailable_reason");
    reveal_strlit("source");
    reveal_strlit("opaque");
    reveal_strlit("source_truncated");
    reveal_strlit("encrypted_agent_message_replay");
    reveal_strlit("truncated_content");
    reveal_strlit("offset_chars");
    reveal_strlit("truncated");
    reveal_strlit("content");
    reveal_strlit("next_offset_chars");
    reveal_strlit("status");
    reveal_strlit("reason");
}

/// The value is the text, or null where there is none.
pub open spec fn is_text_or_null(value: Option<JsonView>, text: Option<Seq<char>>) -> bool {
    match text {
        Some(text) => value == Some(JsonView::Text(text)),
        None => value == Some(JsonView::Null),
    }
}

/// The value carries the references and the description of the entry.
pub open spec fn describes(value: JsonView, entry: EntryView) -> bool {
    &&& field_of(value, "item_id"@) == Some(JsonView::Text(entry.item_id))
    &&& field_of(value, "window_id"@) == Some(JsonView::Text(entry.window_id))
    &&& field_of(value, "window_number"@) == Some(JsonView::Number(NumberView::Unsigned(entry.window_number)))
    &&& field_of(value, "role"@) == Some(JsonView::Text(entry.projection.role))
    &&& field_of(value, "kind"@) == Some(JsonView::Text(entry.projection.kind))
    &&& is_text_or_null(field_of(value, "tool_namespace"@), entry.projection.tool_namespace)
    &&& is_text_or_null(field_of(value, "tool_name"@), entry.projection.tool_name)
    &&& is_text_or_null(field_of(value, "call_id"@), entry.projection.call_id)
    &&& is_text_or_null(field_of(value, "unavailable_reason"@), entry.projection.unavailable_reason)
    &&& field_of(value, "timestamp"@) == Some(JsonView::Text(entry.timestamp))
    &&& field_of(value, "opaque"@) == Some(JsonView::Bool(entry.projection.opaque))
    &&& field_of(value, "source_truncated"@) == Some(JsonView::Bool(entry.projection.content_truncated))
    &&& match field_of(value, "source"@) {
        Some(source) => {
            &&& match entry.source.ordinal {
                Some(ordinal) => field_of(source, "ordinal"@) == Some(
                    JsonView::Number(NumberView::Unsigned(ordinal)),
                ),
                None => field_of(source, "ordinal"@) == Some(JsonView::Null),
            }
            &&& field_of(source, "physical_record"@) == Some(
                JsonView::Number(NumberView::Unsigned(entry.source.physical_record as u64)),
            )
            &&& match entry.source.replacement_index {
                Some(index) => field_of(source, "replacement_index"@) == Some(
                    JsonView::Number(NumberView::Unsigned(index as u64)),
                ),
                None => field_of(source, "replacement_index"@) == Some(JsonView::Null),
            }
        },
        None => false,
    }
    &&& field_of(value, "encrypted_agent_message_replay"@) == (
    if entry.projection.agent_message_encrypted_parts.len() > 0 {
        Some(JsonView::Bool(true))
    } else {
        None
    })
}

/// The part of the entry's text that the value shows: as it stands in the text from the position that is
/// given, no more than `limit` characters and no fewer unless the text ends, and said to be cut where it is
/// not the whole text.
pub open spec fn shows_part(value: JsonView, entry: EntryView, limit: int) -> bool {
    match entry.projection.content {
        None => field_of(value, "truncated_content"@) is None,
        Some(text) => match (field_of(value, "truncated_content"@), field_of(value, "offset_chars"@)) {
            (Some(JsonView::Text(shown)), Some(JsonView::Number(NumberView::Unsigned(offset)))) => {
                &&& offset + shown.len() <= text.len()
                &&& text.subrange(offset as int, offset + shown.len()) == shown
                &&& shown.len() <= limit
                &&& shown.len() == limit || offset + shown.len() == text.len()
                &&& field_of(value, "truncated"@) == Some(
                    JsonView::Bool(
                        offset > 0 || offset + shown.len() < text.len() || entry.projection.content_truncated,
                    ),
                )
            },
            _ => false,
        },
    }
}

/// Where the shown part starts: at the beginning of a text that is listed, and for a search 128 characters
/// before the first place at which the query stands, or at the beginning.
pub open spec fn starts_right(value: JsonView, entry: EntryView, query: Option<Seq<char>>) -> bool {
    entry.projection.content matches Some(text) ==> match query {
        None => field_of(value, "offset_chars"@) == Some(JsonView::Number(NumberView::Unsigned(0))),
        Some(query) => forall|at: int|
            #![trigger text.subrange(at, at + query.len())]
            0 <= at && at + query.len() <= text.len() && text.subrange(at, at + query.len()) == query && (forall|
                earlier: int,
            |
                #![trigger text.subrange(earlier, earlier + query.len())]
                0 <= earlier < at ==> text.subrange(earlier, earlier + query.len()) != query) && text.len()
                <= u64::MAX ==> field_of(value, "offset_chars"@) == Some(
                JsonView::Number(
                    NumberView::Unsigned(
                        if at > 128 {
                            (at - 128) as u64
                        } else {
                            0
                        },
                    ),
                ),
            ),
    }
}

/// The request asks for the entry: each filter that is given is the entry's own, and the text of the entry
/// holds the query, where there is one.
pub open spec fn asks_for(request: ItemsRequestView, entry: EntryView) -> bool {
    &&& request.window_id matches Some(window_id) ==> entry.window_id == window_id
    &&& request.role matches Some(role) ==> entry.projection.role == role
    &&& request.tool_namespace matches Some(namespace) ==> entry.projection.tool_namespace == Some(namespace)
    &&& request.tool_name matches Some(name) ==> entry.projection.tool_name == Some(name)
    &&& request.query matches Some(query) ==> (entry.projection.content matches Some(text) && exists|
        before: Seq<char>,
        behind: Seq<char>,
    | #[trigger] (before + query + behind) == text)
}

/// `list` shows exactly the entries at the places `picks`, in the order of the records or, where the latest
/// come first, against it; these are all that are asked for, and no others.
pub open spec fn lists_exactly(
    request: ItemsRequestView,
    entries: Seq<EntryView>,
    list: Seq<JsonView>,
    picks: Seq<int>,
) -> bool {
    &&& list.len() == picks.len()
    &&& forall|k: int| 0 <= k < picks.len() ==> 0 <= #[trigger] picks[k] < entries.len()
    &&& forall|j: int, k: int| 0 <= j < k < picks.len() ==> #[trigger] picks[j] < #[trigger] picks[k]
    &&& forall|i: int| 0 <= i < entries.len() ==> (asks_for(request, #[trigger] entries[i]) <==> picks.contains(i))
    &&& forall|k: int|
        0 <= k < picks.len() ==> {
            let value = list[if request.recent_first {
                picks.len() - 1 - k
            } else {
                k
            }];
            let entry = entries[#[trigger] picks[k]];
            &&& describes(value, entry)
            &&& shows_part(
                value,
                entry,
                if request.query is Some {
                    768
                } else {
                    request.preview as int
                },
            )
            &&& starts_right(value, entry, request.query)
        }
}

/// The places of the entries that a filter keeps.
proof fn lemma_picks(entries: Seq<EntryView>, keep: spec_fn(EntryView) -> bool) -> (picks: Seq<int>)
    ensures
        picks.len() == entries.filter(keep).len(),
        forall|k: int| 0 <= k < picks.len() ==> 0 <= #[trigger] picks[k] < entries.len(),
        forall|k: int| 0 <= k < picks.len() ==> entries[#[trigger] picks[k]] == entries.filter(keep)[k],
        forall|k: int| 0 <= k < picks.len() ==> keep(entries[#[trigger] picks[k]]),
        forall|j: int, k: int| 0 <= j < k < picks.len() ==> #[trigger] picks[j] < #[trigger] picks[k],
        forall|i: int| 0 <= i < entries.len() && keep(#[trigger] entries[i]) ==> picks.contains(i),
    decreases entries.len(),
{
    reveal(Seq::filter);
    if entries.len() == 0 {
        Seq::empty()
    } else {
        let last = entries.len() - 1;
        let before = lemma_picks(entries.drop_last(), keep);
        assert forall|i: int| 0 <= i < last implies #[trigger] entries[i] == entries.drop_last()[i] by {}
        let picks = if keep(entries.last()) {
            before.push(last)
        } else {
            before
        };
        assert forall|k: int| 0 <= k < picks.len() implies 0 <= #[trigger] picks[k] < entries.len() && entries[picks[k]]
            == entries.filter(keep)[k] && keep(entries[picks[k]]) by {
            if k < before.len() {
                assert(picks[k] == before[k]);
                assert(entries.drop_last()[before[k]] == entries[before[k]]);
            }
        }
        assert forall|i: int| 0 <= i < entries.len() && keep(#[trigger] entries[i]) implies picks.contains(i) by {
            if i < last {
                assert(keep(entries.drop_last()[i]));
                assert(before.contains(i));
                let k = choose|k: int| 0 <= k < before.len() && before[k] == i;
                assert(picks[k] == i);
            } else {
                assert(picks[before.len() as int] == i);
            }
        }
        picks
    }
}

/// What is asked for is what is wanted.
proof fn lemma_asks_for(request: ItemsRequestView, entry: EntryView)
    ensures
        asks_for(request, entry) == wanted(request, entry),
{
    if let Some(query) = request.query {
        if let Some(text) = entry.projection.content {
            law_occurrence(text, query);
        }
    }
}

/// What is said of an entry.
proof fn lemma_describes(entry: EntryView)
    ensures
        describes(entry_metadata_view(entry), entry),
        field_of(entry_metadata_view(entry), "truncated_content"@) is None,
        field_of(entry_metadata_view(entry), "content"@) is None,
        field_of(entry_metadata_view(entry), "status"@) is None,
{
    lemma_answer_names();
    reveal_strlit("ordinal");
    reveal_strlit("physical_record");
    reveal_strlit("replacement_index");
    assert("ordinal"@.len() == 7 && "physical_record"@.len() == 15 && "replacement_index"@.len() == 17);
}

/// What a listing says of an entry.
proof fn lemma_item(request: ItemsRequestView, entry: EntryView)
    requires
        entry.projection.content matches Some(text) ==> text.len() <= u64::MAX,
    ensures
        describes(item_view(request, entry), entry),
        shows_part(
            item_view(request, entry),
            entry,
            if request.query is Some {
                768
            } else {
                request.preview as int
            },
        ),
        starts_right(item_view(request, entry), entry, request.query),
{
    lemma_answer_names();
    lemma_describes(entry);
    if let Some(text) = entry.projection.content {
        if let Some(query) = request.query {
            assert forall|at: int|
                #![trigger text.subrange(at, at + query.len())]
                0 <= at && at + query.len() <= text.len() && text.subrange(at, at + query.len()) == query && (forall|
                    earlier: int,
                |
                    #![trigger text.subrange(earlier, earlier + query.len())]
                    0 <= earlier < at ==> text.subrange(earlier, earlier + query.len()) != query) implies first_match(
                text,
                query,
            ) == Some(at) by {
                assert(occurs_at(text, query, at));
                assert forall|earlier: int| earlier < at implies !occurs_at(text, query, earlier) by {
                    if 0 <= earlier {
                        assert(text.subrange(earlier, earlier + query.len()) != query);
                    }
                }
                assert(crate::text::first_at(text, query, at));
                let chosen = choose|place: int| crate::text::first_at(text, query, place);
                assert(crate::text::first_at(text, query, chosen));
                if chosen < at {
                    assert(!occurs_at(text, query, chosen));
                }
                if at < chosen {
                    assert(!occurs_at(text, query, at));
                }
            }
            if let Some(at) = first_match(text, query) {
                let somewhere = choose|at: int| occurs_at(text, query, at);
                let first = lemma_some_first(text, query, somewhere);
                assert(crate::text::first_at(text, query, at));
            }
        }
    }
}

/// What stands somewhere has a first place.
proof fn lemma_some_first(text: Seq<char>, query: Seq<char>, somewhere: int) -> (at: int)
    requires
        occurs_at(text, query, somewhere),
    ensures
        crate::text::first_at(text, query, at),
    decreases somewhere,
{
    if exists|earlier: int| earlier < somewhere && occurs_at(text, query, earlier) {
        let earlier = choose|earlier: int| earlier < somewhere && occurs_at(text, query, earlier);
        lemma_some_first(text, query, earlier)
    } else {
        somewhere
    }
}

/// A listing or a search is complete and exact: it shows every scanned entry whose window, role, tool and
/// namespace are those that are asked for and whose text holds the query, whatever its kind and its call,
/// and no other entry; each once, in the order of the records or against it, with its own references, its
/// own description and the part of its own text that was asked for.
pub proof fn law_listing_is_complete_and_exact(request: ItemsRequestView, scan: ScanView) -> (picks: Seq<int>)
    requires
        forall|i: int|
            0 <= i < scan.entries.len() ==> ((#[trigger] scan.entries[i]).projection.content matches Some(text)
                ==> text.len() <= u64::MAX),
    ensures
        lists_exactly(request, scan.entries, items_to_list(request, scan), picks),
{
    let keep = |entry: EntryView| wanted(request, entry);
    let found = scan.entries.filter(keep);
    let picks = lemma_picks(scan.entries, keep);
    let list = items_to_list(request, scan);
    assert(wanted_entries(request, scan) == found);
    assert forall|i: int| 0 <= i < scan.entries.len() implies (asks_for(request, #[trigger] scan.entries[i])
        <==> picks.contains(i)) by {
        lemma_asks_for(request, scan.entries[i]);
        assert(keep(scan.entries[i]) == wanted(request, scan.entries[i]));
        if picks.contains(i) {
            let k = choose|k: int| 0 <= k < picks.len() && picks[k] == i;
            assert(keep(scan.entries[picks[k]]));
        }
    }
    assert forall|k: int| 0 <= k < picks.len() implies ({
        let value = list[if request.recent_first {
            picks.len() - 1 - k
        } else {
            k
        }];
        let entry = scan.entries[#[trigger] picks[k]];
        value == item_view(request, entry)
    }) by {
        let at = if request.recent_first {
            picks.len() - 1 - k
        } else {
            k
        };
        assert(ordered(found, request.recent_first)[at] == found[k]);
        assert(list[at] == item_view(request, ordered(found, request.recent_first)[at]));
    }
    assert forall|k: int| 0 <= k < picks.len() implies ({
        let value = list[if request.recent_first {
            picks.len() - 1 - k
        } else {
            k
        }];
        let entry = scan.entries[#[trigger] picks[k]];
        &&& describes(value, entry)
        &&& shows_part(
            value,
            entry,
            if request.query is Some {
                768
            } else {
                request.preview as int
            },
        )
        &&& starts_right(value, entry, request.query)
    }) by {
        lemma_item(request, scan.entries[picks[k]]);
    }
    picks
}

/// A request that filters by a window alone.
pub open spec fn only_window(request: ItemsRequestView, window_id: Seq<char>) -> bool {
    &&& request.window_id == Some(window_id)
    &&& request.role is None
    &&& request.tool_namespace is None
    &&& request.tool_name is None
    &&& request.query is None
}

/// A list that is filtered by a window alone shows exactly the entries of that window, in the order of the
/// records or against it.
pub proof fn law_window_filter_is_exact(request: ItemsRequestView, scan: ScanView, window_id: Seq<char>) -> (picks: Seq<
    int,
>)
    requires
        only_window(request, window_id),
    ensures
        picks.len() == items_to_list(request, scan).len(),
        forall|j: int, k: int| 0 <= j < k < picks.len() ==> #[trigger] picks[j] < #[trigger] picks[k],
        forall|i: int|
            0 <= i < scan.entries.len() ==> ((#[trigger] scan.entries[i]).window_id == window_id <==> picks.contains(i)),
        forall|k: int|
            0 <= k < picks.len() ==> 0 <= picks[k] < scan.entries.len() && describes(
                items_to_list(request, scan)[if request.recent_first {
                    picks.len() - 1 - k
                } else {
                    k
                }],
                scan.entries[#[trigger] picks[k]],
            ),
{
    let keep = |entry: EntryView| wanted(request, entry);
    let found = scan.entries.filter(keep);
    let picks = lemma_picks(scan.entries, keep);
    let list = items_to_list(request, scan);
    assert(wanted_entries(request, scan) == found);
    assert forall|i: int| 0 <= i < scan.entries.len() implies ((#[trigger] scan.entries[i]).window_id == window_id
        <==> picks.contains(i)) by {
        lemma_asks_for(request, scan.entries[i]);
        assert(keep(scan.entries[i]) == wanted(request, scan.entries[i]));
        if picks.contains(i) {
            let k = choose|k: int| 0 <= k < picks.len() && picks[k] == i;
            assert(keep(scan.entries[picks[k]]));
        }
    }
    assert forall|k: int| 0 <= k < picks.len() implies 0 <= picks[k] < scan.entries.len() && describes(
        list[if request.recent_first {
            picks.len() - 1 - k
        } else {
            k
        }],
        scan.entries[#[trigger] picks[k]],
    ) by {
        let at = if request.recent_first {
            picks.len() - 1 - k
        } else {
            k
        };
        assert(ordered(found, request.recent_first)[at] == found[k]);
        assert(list[at] == item_view(request, ordered(found, request.recent_first)[at]));
        lemma_answer_names();
        lemma_describes(scan.entries[picks[k]]);
    }
    picks
}

/// Window IDs of a thread tell its windows apart.
pub proof fn law_window_ids_tell_apart(thread_id: Seq<char>, left: u64, right: u64)
    ensures
        window_id_of(thread_id, left) == window_id_of(thread_id, right) ==> left == right,
        window_id_of(thread_id, left).len() > thread_id.len(),
        window_id_of(thread_id, left).take(thread_id.len() as int) == thread_id,
        window_id_of(thread_id, left)[thread_id.len() as int] == ':',
{
    reveal_strlit(":");
    lemma_decimal(left as nat);
    lemma_decimal(right as nat);
    let one = window_id_of(thread_id, left);
    let other = window_id_of(thread_id, right);
    assert(one.skip(thread_id.len() as int + 1) =~= decimal(left as nat));
    assert(other.skip(thread_id.len() as int + 1) =~= decimal(right as nat));
    assert(one.take(thread_id.len() as int) =~= thread_id);
}

/// As many entries are kept as counted.
proof fn lemma_filter_counts(
    entries: Seq<EntryView>,
    keep: spec_fn(EntryView) -> bool,
    count: spec_fn(EntryView) -> bool,
)
    requires
        forall|i: int| 0 <= i < entries.len() ==> keep(#[trigger] entries[i]) == count(entries[i]),
    ensures
        entries.filter(keep).len() == tally(entries, count),
    decreases entries.len(),
{
    reveal(Seq::filter);
    if entries.len() > 0 {
        assert forall|i: int| 0 <= i < entries.drop_last().len() implies keep(#[trigger] entries.drop_last()[i])
            == count(entries.drop_last()[i]) by {
            assert(entries.drop_last()[i] == entries[i]);
        }
        lemma_filter_counts(entries.drop_last(), keep, count);
        assert(entries.last() == entries[entries.len() - 1]);
    }
}

/// Listing a window by its own ID, as the list of windows gives it, shows as many items as the window says
/// that it has.
pub proof fn law_window_filter_lists_the_window(state: StateView, index: int, request: ItemsRequestView)
    requires
        state.inv(),
        0 <= index < state.windows.len(),
        only_window(request, state.windows[index].window_id),
    ensures
        items_to_list(
            request,
            ScanView { entries: state.entries, windows: state.windows, info: state.info },
        ).len() == state.windows[index].item_count,
{
    let scan = ScanView { entries: state.entries, windows: state.windows, info: state.info };
    let window = state.windows[index];
    let keep = |entry: EntryView| wanted(request, entry);
    assert forall|i: int| 0 <= i < state.entries.len() implies keep(#[trigger] state.entries[i]) == in_window(
        window.window_number,
    )(state.entries[i]) by {
        law_window_ids_tell_apart(state.thread_id, state.entries[i].window_number, window.window_number);
        lemma_asks_for(request, state.entries[i]);
    }
    lemma_filter_counts(state.entries, keep, in_window(window.window_number));
    assert(wanted_entries(request, scan) == state.entries.filter(keep));
}

/// The counts of a window are those of the entries that carry its ID: of all of them, of those with text, and
/// of those that leave something unsaid.
pub proof fn law_windows_count_their_entries(state: StateView, index: int)
    requires
        state.inv(),
        0 <= index < state.windows.len(),
    ensures
        ({
            let window = state.windows[index];
            &&& window.item_count == state.entries.filter(
                |entry: EntryView| entry.window_id == window.window_id,
            ).len()
            &&& window.readable_item_count == state.entries.filter(
                |entry: EntryView| entry.window_id == window.window_id && entry.projection.content is Some,
            ).len()
            &&& window.opaque_item_count == state.entries.filter(
                |entry: EntryView| entry.window_id == window.window_id && entry.projection.opaque,
            ).len()
        }),
{
    let window = state.windows[index];
    let number = window.window_number;
    let all = |entry: EntryView| entry.window_id == window.window_id;
    let readable = |entry: EntryView| entry.window_id == window.window_id && entry.projection.content is Some;
    let opaque = |entry: EntryView| entry.window_id == window.window_id && entry.projection.opaque;
    assert forall|i: int| 0 <= i < state.entries.len() implies all(#[trigger] state.entries[i]) == in_window(number)(
        state.entries[i],
    ) && readable(state.entries[i]) == readable_in_window(number)(state.entries[i]) && opaque(state.entries[i])
        == opaque_in_window(number)(state.entries[i]) by {
        law_window_ids_tell_apart(state.thread_id, state.entries[i].window_number, number);
    }
    lemma_filter_counts(state.entries, all, in_window(number));
    lemma_filter_counts(state.entries, readable, readable_in_window(number));
    lemma_filter_counts(state.entries, opaque, opaque_in_window(number));
}

/// The list of windows shows every window of the scan, each once, in order or against it, with its ID, its
/// number, its context window and its counts.
pub proof fn law_window_list_shows_windows(request: WindowsRequest, scan: ScanView, index: int)
    requires
        0 <= index < scan.windows.len(),
    ensures
        windows_to_list(request, scan).len() == scan.windows.len(),
        ({
            let value = windows_to_list(request, scan)[if request.recent_first {
                scan.windows.len() - 1 - index
            } else {
                index
            }];
            let window = scan.windows[index];
            &&& field_of(value, "window_id"@) == Some(JsonView::Text(window.window_id))
            &&& field_of(value, "window_number"@) == Some(JsonView::Number(NumberView::Unsigned(window.window_number)))
            &&& is_text_or_null(field_of(value, "context_window_id"@), window.context_window_id)
            &&& field_of(value, "item_count"@) == Some(
                JsonView::Number(NumberView::Unsigned(window.item_count as u64)),
            )
            &&& field_of(value, "readable_item_count"@) == Some(
                JsonView::Number(NumberView::Unsigned(window.readable_item_count as u64)),
            )
            &&& field_of(value, "opaque_item_count"@) == Some(
                JsonView::Number(NumberView::Unsigned(window.opaque_item_count as u64)),
            )
        }),
{
    lemma_answer_names();
    reveal_strlit("context_window_id");
    reveal_strlit("item_count");
    reveal_strlit("readable_item_count");
    reveal_strlit("opaque_item_count");
    assert("context_window_id"@.len() == 17 && "item_count"@.len() == 10 && "readable_item_count"@.len() == 19
        && "opaque_item_count"@.len() == 17);
    assert("context_window_id"@[0] == 'c' && "opaque_item_count"@[0] == 'o');
    let at = if request.recent_first {
        scan.windows.len() - 1 - index
    } else {
        index
    };
    assert(ordered(scan.windows, request.recent_first)[at] == scan.windows[index]);
}

/// A page shows no more than was asked for, and is filled: where it shows fewer although there are more,
/// the next one would not leave the 100 bytes below 8,000 that are kept for the cursor.
pub proof fn law_pages_are_filled(request: ItemsRequestView, scan: ScanView)
    requires
        scan.entries.len() <= usize::MAX,
    ensures
        ({
            let shown = items_in(items_answer(request, scan), "items"@);
            let all = items_to_list(request, scan);
            &&& shown.len() <= request.limit
            &&& request.offset < all.len() && shown.len() < request.limit && request.offset + shown.len()
                < all.len() ==> json_size(
                filled(
                    scan_metadata_view(scan),
                    "items"@,
                    all.subrange(request.offset as int, request.offset + shown.len() + 1),
                ),
            ) + 100 > 8_000
        }),
{
    law_item_pages_tile(request, scan);
    let all = items_to_list(request, scan);
    let base = scan_metadata_view(scan);
    let found = wanted_entries(request, scan);
    scan.entries.lemma_filter_len(|entry: EntryView| wanted(request, entry));
    let values = crate::history::items_on_page(request, scan);
    assert(values =~= crate::history::page_of(all, request.offset as nat, request.limit as nat));
    lemma_shown_is_most(base, "items"@, values);
    let count = shown_count(base, "items"@, values);
    lemma_answer_names();
    reveal_strlit("items");
    reveal_strlit("next_cursor");
    assert("items"@.len() == 5 && "next_cursor"@.len() == 11);
    assert(items_in(items_answer(request, scan), "items"@) == values.take(count as int));
    if request.offset < all.len() && count < request.limit && request.offset + count < all.len() {
        assert(values.take(count as int + 1) =~= all.subrange(request.offset as int, request.offset + count + 1));
    }
}

/// The first value that is not shown would not leave room.
proof fn lemma_shown_is_most(base: JsonView, field: Seq<char>, values: Seq<JsonView>)
    ensures
        shown_count(base, field, values) <= values.len(),
        shown_count(base, field, values) < values.len() ==> json_size(
            filled(base, field, values.take(shown_count(base, field, values) as int + 1)),
        ) + 100 > 8_000,
    decreases values.len(),
{
    if values.len() > 0 {
        let shorter = values.drop_last();
        lemma_shown_is_most(base, field, shorter);
        let before = shown_count(base, field, shorter);
        if before == values.len() - 1 {
            assert(values.take(values.len() as int) =~= values);
        } else {
            assert(shorter.take(before as int + 1) =~= values.take(before as int + 1));
        }
    }
}

/// The answer tells of its scan: it is "ok" and complete exactly where the scan is complete and no text was
/// cut, "partial" otherwise; it gives the number of records, the errors and the trouble met, and says that
/// something is left out where the scan left something out or the page does not reach the end.
pub open spec fn tells_of_scan(told: JsonView, scan: ScanView, more: bool) -> bool {
    let whole = scan.info.complete && forall|i: int|
        0 <= i < scan.entries.len() ==> !(#[trigger] scan.entries[i]).projection.content_truncated;
    &&& field_of(told, "status"@) == Some(JsonView::Text(if whole { "ok"@ } else { "partial"@ }))
    &&& field_of(told, "scan_complete"@) == Some(JsonView::Bool(whole))
    &&& field_of(told, "corrupt"@) == Some(JsonView::Bool(scan.info.corrupt))
    &&& field_of(told, "truncated"@) == Some(JsonView::Bool(scan.info.truncated || more))
    &&& field_of(told, "records_scanned"@) == Some(
        JsonView::Number(NumberView::Unsigned(scan.info.records_scanned as u64)),
    )
    &&& field_of(told, "opaque_records"@) == Some(
        JsonView::Number(NumberView::Unsigned(scan.info.opaque_records as u64)),
    )
    &&& items_in(told, "errors"@).len() == scan.info.errors.len()
    &&& forall|i: int|
        0 <= i < scan.info.errors.len() ==> #[trigger] items_in(told, "errors"@)[i] == JsonView::Text(
            scan.info.errors[i],
        )
}

/// The names in what is told of a scan differ.
proof fn lemma_scan_names()
    ensures
        "scan_complete"@.len() == 13 && "scan_complete"@[0] == 's',
        "records_scanned"@.len() == 15,
        "opaque_records"@.len() == 14,
        "corrupt"@.len() == 7 && "corrupt"@[0] == 'c' && "corrupt"@[2] == 'r',
        "content"@.len() == 7 && "content"@[2] == 'n',
        "errors"@.len() == 6 && "errors"@[0] == 'e',
        "next_cursor"@.len() == 11,
        "items"@.len() == 5,
        "windows"@.len() == 7 && "windows"@[0] == 'w',
        "status"@.len() == 6 && "status"@[0] == 's',
        "reason"@.len() == 6 && "reason"@[0] == 'r',
        "truncated"@.len() == 9,
{
    reveal_strlit("scan_complete");
    reveal_strlit("records_scanned");
    reveal_strlit("opaque_records");
    reveal_strlit("corrupt");
    reveal_strlit("content");
    reveal_strlit("errors");
    reveal_strlit("next_cursor");
    reveal_strlit("items");
    reveal_strlit("windows");
    reveal_strlit("status");
    reveal_strlit("reason");
    reveal_strlit("truncated");
}

/// Every page of items tells of the scan.
pub proof fn law_item_pages_tell_of_the_scan(request: ItemsRequestView, scan: ScanView)
    requires
        scan.entries.len() <= usize::MAX,
    ensures
        ({
            let answer = items_answer(request, scan);
            tells_of_scan(
                answer,
                scan,
                request.offset + items_in(answer, "items"@).len() < items_to_list(request, scan).len(),
            )
        }),
{
    lemma_scan_names();
    scan.entries.lemma_filter_len(|entry: EntryView| wanted(request, entry));
    lemma_shown_is_most(scan_metadata_view(scan), "items"@, crate::history::items_on_page(request, scan));
}

/// Every page of windows tells of the scan.
pub proof fn law_window_pages_tell_of_the_scan(request: WindowsRequest, scan: ScanView)
    requires
        scan.windows.len() <= usize::MAX,
    ensures
        ({
            let answer = windows_answer(request, scan);
            tells_of_scan(
                answer,
                scan,
                request.offset + items_in(answer, "windows"@).len() < scan.windows.len(),
            )
        }),
{
    lemma_scan_names();
    lemma_shown_is_most(scan_metadata_view(scan), "windows"@, crate::history::windows_on_page(request, scan));
}

/// A page of windows shows no more than was asked for, and is filled as far as there is room.
pub proof fn law_window_pages_are_filled(request: WindowsRequest, scan: ScanView)
    requires
        scan.windows.len() <= usize::MAX,
    ensures
        ({
            let shown = items_in(windows_answer(request, scan), "windows"@);
            let all = windows_to_list(request, scan);
            &&& shown.len() <= request.limit
            &&& request.offset < all.len() && shown.len() < request.limit && request.offset + shown.len()
                < all.len() ==> json_size(
                filled(
                    scan_metadata_view(scan),
                    "windows"@,
                    all.subrange(request.offset as int, request.offset + shown.len() + 1),
                ),
            ) + 100 > 8_000
        }),
{
    law_window_pages_tile(request, scan);
    let all = windows_to_list(request, scan);
    let base = scan_metadata_view(scan);
    let values = crate::history::windows_on_page(request, scan);
    assert(values =~= crate::history::page_of(all, request.offset as nat, request.limit as nat));
    lemma_shown_is_most(base, "windows"@, values);
    let count = shown_count(base, "windows"@, values);
    lemma_scan_names();
    assert(items_in(windows_answer(request, scan), "windows"@) == values.take(count as int));
    if request.offset < all.len() && count < request.limit && request.offset + count < all.len() {
        assert(values.take(count as int + 1) =~= all.subrange(request.offset as int, request.offset + count + 1));
    }
}

/// A part of a text from `offset` on, as an answer shows it.
pub open spec fn shows_text_part(answer: JsonView, entry: EntryView, text: Seq<char>, offset: usize, end: int) -> bool {
    &&& describes(answer, entry)
    &&& field_of(answer, "status"@) == Some(JsonView::Text("ok"@))
    &&& field_of(answer, "offset_chars"@) == Some(JsonView::Number(NumberView::Unsigned(offset as u64)))
    &&& field_of(answer, "content"@) == Some(JsonView::Text(text.subrange(offset as int, end)))
    &&& field_of(answer, "next_offset_chars"@) == Some(JsonView::Number(NumberView::Unsigned(end as u64)))
    &&& field_of(answer, "truncated"@) == Some(
        JsonView::Bool(end < text.len() || entry.projection.content_truncated),
    )
}

/// How far a part of at most `count` characters from `offset` on reaches.
pub open spec fn part_end(text: Seq<char>, offset: usize, count: int) -> int {
    if offset + count <= text.len() {
        offset + count
    } else {
        text.len() as int
    }
}

/// Reading an item by the references that a listing gave shows its own text: the first entry with both
/// references is described, and from the offset on its text is shown as it was recorded, as far as was asked
/// for if that fits in 8,000 bytes, otherwise half as far or half of that and so on; the answer says where to
/// go on. Only where not even one character fits is there none.
pub proof fn law_read_shows_the_entry(request: ReadRequestView, scan: ScanView, index: int, text: Seq<char>) -> (count:
    int)
    requires
        0 <= index < scan.entries.len(),
        scan.entries[index].item_id == request.item_id,
        scan.entries[index].window_id == request.window_id,
        forall|i: int|
            0 <= i < index ==> (#[trigger] scan.entries[i]).item_id != request.item_id || scan.entries[i].window_id
                != request.window_id,
        scan.entries[index].projection.agent_message_encrypted_parts.len() == 0,
        scan.entries[index].projection.content == Some(text),
        request.limit > 0,
        text.len() <= usize::MAX,
        request.offset <= text.len(),
    ensures
        0 <= count <= request.limit,
        read_answer(request, scan) matches LocalResultView::Json(answer) && {
            let entry = scan.entries[index];
            &&& count > 0 ==> shows_text_part(answer, entry, text, request.offset, part_end(text, request.offset, count))
                && json_size(answer) <= 8_000
            &&& count == 0 ==> field_of(answer, "status"@) == Some(JsonView::Text("unavailable"@)) && field_of(
                answer,
                "content"@,
            ) is None
            &&& count < request.limit ==> exists|larger: JsonView, twice: int|
                #[trigger] shows_text_part(larger, entry, text, request.offset, part_end(text, request.offset, twice))
                    && (twice == 2 * count || twice == 2 * count + 1) && json_size(larger) > 8_000
        },
{
    let entry = scan.entries[index];
    law_listed_items_can_be_read(scan.entries, index);
    lemma_first_entry(scan.entries, index);
    lemma_answer_names();
    lemma_describes(entry);
    match fitting_limit(entry, text, request.offset, request.limit) {
        Some(used) => {
            law_read_shows_text_in_order(entry, text, request.offset, request.limit);
            lemma_part(entry, text, request.offset, used);
            if used < request.limit {
                let twice = lemma_tried(entry, text, request.offset, request.limit);
                lemma_part(entry, text, request.offset, twice);
            }
            used as int
        },
        None => {
            let twice = lemma_tried(entry, text, request.offset, request.limit);
            lemma_part(entry, text, request.offset, twice);
            0
        },
    }
}

/// The first entry with both references is the one that is found.
proof fn lemma_first_entry(entries: Seq<EntryView>, index: int)
    requires
        0 <= index < entries.len(),
        forall|i: int|
            0 <= i < index ==> (#[trigger] entries[i]).item_id != entries[index].item_id || entries[i].window_id
                != entries[index].window_id,
    ensures
        first_entry(entries, entries[index].item_id, entries[index].window_id) == Some(entries[index]),
    decreases entries.len(),
{
    if index > 0 {
        let rest = entries.drop_first();
        assert(rest[index - 1] == entries[index]);
        assert forall|i: int| 0 <= i < index - 1 implies (#[trigger] rest[i]).item_id != rest[index - 1].item_id
            || rest[i].window_id != rest[index - 1].window_id by {
            assert(rest[i] == entries[i + 1]);
        }
        lemma_first_entry(rest, index - 1);
        assert(entries[0].item_id != entries[index].item_id || entries[0].window_id != entries[index].window_id);
    }
}

/// What a part shows.
proof fn lemma_part(entry: EntryView, text: Seq<char>, offset: usize, count: usize)
    requires
        text.len() <= usize::MAX,
        offset <= text.len(),
    ensures
        shows_text_part(part_view(entry, text, offset, count), entry, text, offset, part_end(text, offset, count as int)),
{
    lemma_answer_names();
    lemma_describes(entry);
}

/// A limit that was halved was too much, and so was one where not even one character fits.
proof fn lemma_tried(entry: EntryView, text: Seq<char>, offset: usize, limit: usize) -> (twice: usize)
    requires
        limit > 0,
        fitting_limit(entry, text, offset, limit) != Some(limit),
    ensures
        json_size(part_view(entry, text, offset, twice)) > 8_000,
        match fitting_limit(entry, text, offset, limit) {
            Some(used) => twice == 2 * used || twice == 2 * used + 1,
            None => twice == 1,
        },
    decreases limit,
{
    if limit < 2 || fitting_limit(entry, text, offset, limit) == Some((limit / 2) as usize) {
        limit
    } else {
        lemma_tried(entry, text, offset, (limit / 2) as usize)
    }
}

/// Behind the end of a text nothing of it is shown, and the answer leads nowhere else.
pub proof fn law_read_behind_the_end(request: ReadRequestView, entry: EntryView, text: Seq<char>)
    requires
        entry.projection.agent_message_encrypted_parts.len() == 0,
        entry.projection.content == Some(text),
        request.offset > text.len(),
    ensures
        entry_answer(request, entry) matches LocalResultView::Json(answer) && (field_of(answer, "status"@) == Some(
            JsonView::Text("ok"@),
        ) ==> {
            &&& describes(answer, entry)
            &&& field_of(answer, "content"@) == Some(JsonView::Text(Seq::empty()))
            &&& field_of(answer, "next_offset_chars"@) == Some(
                JsonView::Number(NumberView::Unsigned(request.offset as u64)),
            )
            &&& field_of(answer, "truncated"@) == Some(JsonView::Bool(entry.projection.content_truncated))
        }),
{
    lemma_answer_names();
    lemma_describes(entry);
    reveal_strlit("ok");
    reveal_strlit("unavailable");
    assert("ok"@.len() == 2 && "unavailable"@.len() == 11);
    if let Some(used) = fitting_limit(entry, text, request.offset, request.limit) {
        assert(crate::limits::char_range(text, request.offset as nat, used as nat) =~= Seq::empty());
    }
}

/// An item without text is described and said to be unavailable.
pub proof fn law_read_without_text(request: ReadRequestView, entry: EntryView)
    requires
        entry.projection.agent_message_encrypted_parts.len() == 0,
        entry.projection.content is None,
    ensures
        entry_answer(request, entry) matches LocalResultView::Json(answer) && {
            &&& describes(answer, entry)
            &&& field_of(answer, "status"@) == Some(JsonView::Text("unavailable"@))
            &&& field_of(answer, "content"@) is None
        },
{
    lemma_answer_names();
    lemma_describes(entry);
}

/// References that no entry has lead to no text: the answer says that nothing was found, and how far the
/// scan went.
pub proof fn law_unknown_references_show_nothing(request: ReadRequestView, scan: ScanView)
    requires
        forall|i: int|
            0 <= i < scan.entries.len() ==> (#[trigger] scan.entries[i]).item_id != request.item_id
                || scan.entries[i].window_id != request.window_id,
    ensures
        read_answer(request, scan) matches LocalResultView::Json(answer) && {
            &&& field_of(answer, "status"@) == Some(JsonView::Text("unavailable"@))
            &&& field_of(answer, "reason"@) == Some(JsonView::Text("item_not_found_in_scanned_history"@))
            &&& field_of(answer, "content"@) is None
            &&& field_of(answer, "scan_complete"@) == Some(
                JsonView::Bool(
                    scan.info.complete && forall|i: int|
                        0 <= i < scan.entries.len() ==> !(#[trigger] scan.entries[i]).projection.content_truncated,
                ),
            )
        },
{
    lemma_no_entry(scan.entries, request.item_id, request.window_id);
    lemma_scan_names();
}

/// Nothing is found where no entry has the references.
proof fn lemma_no_entry(entries: Seq<EntryView>, item_id: Seq<char>, window_id: Seq<char>)
    requires
        forall|i: int|
            0 <= i < entries.len() ==> (#[trigger] entries[i]).item_id != item_id || entries[i].window_id
                != window_id,
    ensures
        first_entry(entries, item_id, window_id) is None,
    decreases entries.len(),
{
    if entries.len() > 0 {
        assert forall|i: int| 0 <= i < entries.drop_first().len() implies (
        #[trigger] entries.drop_first()[i]).item_id != item_id || entries.drop_first()[i].window_id
            != window_id by {
            assert(entries.drop_first()[i] == entries[i + 1]);
        }
        lemma_no_entry(entries.drop_first(), item_id, window_id);
    }
}

/// An entry with encrypted parts replays them all in their order where they fit in one result, and nothing
/// of them otherwise; a part of it cannot be asked for.
pub proof fn law_encrypted_parts_are_replayed(request: ReadRequestView, entry: EntryView)
    requires
        entry.projection.agent_message_encrypted_parts.len() > 0,
    ensures
        ({
            let parts = entry.projection.agent_message_encrypted_parts;
            match entry_answer(request, entry) {
                LocalResultView::AgentMessageReplay(items) => {
                    &&& request.offset == 0
                    &&& items.len() == parts.len()
                    &&& forall|i: int|
                        0 <= i < parts.len() ==> #[trigger] items[i] == (OutputItemView::EncryptedContent {
                            encrypted_content: parts[i],
                        })
                    &&& json_size(crate::history::encrypted_parts_view(parts)) <= 8_000
                },
                LocalResultView::Json(answer) => {
                    &&& request.offset != 0 ==> field_of(answer, "status"@) == Some(
                        JsonView::Text("invalid_argument"@),
                    )
                    &&& request.offset == 0 ==> {
                        &&& field_of(answer, "status"@) == Some(JsonView::Text("unavailable"@))
                        &&& json_size(crate::history::encrypted_parts_view(parts)) > 8_000
                    }
                },
            }
        }),
{
    lemma_answer_names();
    reveal_strlit("field");
    assert("field"@.len() == 5);
}

/// A scan that failed, or of a thread with inherited history, is answered with the reason alone; any other
/// is shown.
pub proof fn law_failed_scans_say_why(scan: Result<ScanResult, ScanFailure>)
    ensures
        match scan {
            Err(failure) => usable_scan(scan) matches Err(answer) && {
                &&& field_of(answer, "status"@) == Some(JsonView::Text("unavailable"@))
                &&& field_of(answer, "reason"@) == Some(
                    JsonView::Text(
                        match failure {
                            ScanFailure::UnsupportedThreadStore => "unsupported_thread_store"@,
                            ScanFailure::ThreadFlushFailed => "thread_flush_failed"@,
                            ScanFailure::ActiveRolloutUnavailable => "active_rollout_unavailable"@,
                            ScanFailure::Scan(reason) => reason@,
                        },
                    ),
                )
            },
            Ok(found) => {
                &&& found@.info.lineage_unavailable ==> (usable_scan(scan) matches Err(answer) && field_of(
                    answer,
                    "reason"@,
                ) == Some(JsonView::Text("inherited_history_unavailable"@)))
                &&& !found@.info.lineage_unavailable ==> (usable_scan(scan) matches Ok(shown) && shown == found@)
            },
        },
{
    lemma_answer_names();
}

/// A count in the arguments: the default where there is none, else the number itself, cut at the maximum.
/// Zero and what is no number are refused.
pub open spec fn reads_count(arguments: JsonView, field: Seq<char>, default: int, maximum: int, count: int) -> bool {
    match field_of(arguments, field) {
        None => count == default,
        Some(JsonView::Number(NumberView::Unsigned(number))) => {
            &&& number > 0
            &&& number <= maximum ==> count == number
            &&& number > maximum ==> count == maximum
        },
        Some(_) => false,
    }
}

/// The text of an argument, none where it is no text.
pub open spec fn reads_text(arguments: JsonView, field: Seq<char>, text: Option<Seq<char>>) -> bool {
    match field_of(arguments, field) {
        Some(JsonView::Text(given)) => text == Some(given),
        _ => text is None,
    }
}

/// The position that an argument `cursor` gives: the number whose digits it is, the first position where it
/// is no text.
pub open spec fn reads_cursor(arguments: JsonView, offset: int) -> bool {
    match field_of(arguments, "cursor"@) {
        Some(JsonView::Text(cursor)) => forall|position: nat|
            position <= usize::MAX && cursor == #[trigger] decimal(position) ==> offset == position,
        _ => offset == 0,
    }
}

/// A cursor of digits reads as their number.
proof fn lemma_cursor(arguments: JsonView)
    ensures
        cursor_offset(arguments) matches Ok(offset) ==> reads_cursor(arguments, offset as int),
        !(field_of(arguments, "cursor"@) matches Some(JsonView::Text(_))) ==> cursor_offset(arguments) is Ok,
        forall|position: nat|
            position <= usize::MAX && field_of(arguments, "cursor"@) == Some(JsonView::Text(#[trigger] decimal(position)))
                ==> cursor_offset(arguments) is Ok,
{
    if let Some(JsonView::Text(cursor)) = field_of(arguments, "cursor"@) {
        assert forall|position: nat| position <= usize::MAX && cursor == #[trigger] decimal(position) implies cursor_offset(
            arguments,
        ) == Ok::<_, JsonView>(position as usize) by {
            law_decimal_round_trip(position, usize::MAX as nat);
        }
    }
}

/// The cursor that a page gave leads on from where it says, with the other arguments as they were.
pub proof fn law_cursor_is_taken_back(arguments: JsonView, position: nat, query: Option<Seq<char>>)
    requires
        position <= usize::MAX,
        field_of(arguments, "cursor"@) == Some(JsonView::Text(decimal(position))),
    ensures
        windows_request(arguments) matches Ok(request) ==> request.offset == position,
        items_request(arguments, query) matches Ok(request) ==> request.offset == position,
        field_of(arguments, "limit"@) is None ==> windows_request(arguments) is Ok,
{
    lemma_cursor(arguments);
}

/// A list of windows is asked for as the arguments say: 20 windows unless they say otherwise, never more
/// than 100.
pub proof fn law_windows_request_reads_arguments(arguments: JsonView)
    ensures
        windows_request(arguments) matches Ok(request) ==> {
            &&& reads_count(arguments, "limit"@, 20, 100, request.limit as int)
            &&& reads_cursor(arguments, request.offset as int)
            &&& request.recent_first <==> field_of(arguments, "recent_first"@) == Some(JsonView::Bool(true))
        },
        field_of(arguments, "limit"@) is None && field_of(arguments, "cursor"@) is None ==> windows_request(
            arguments,
        ) is Ok,
{
    lemma_cursor(arguments);
}

/// A list of items is asked for as the arguments say: 10 items of at most 768 characters unless they say
/// otherwise, never more than 20 of 4,000; each filter is the argument of its name.
pub proof fn law_items_request_reads_arguments(arguments: JsonView, query: Option<Seq<char>>)
    ensures
        items_request(arguments, query) matches Ok(request) ==> {
            &&& reads_count(arguments, "limit"@, 10, 20, request.limit as int)
            &&& reads_count(arguments, "max_chars_per_item"@, 768, 4_000, request.preview as int)
            &&& reads_cursor(arguments, request.offset as int)
            &&& request.recent_first <==> field_of(arguments, "recent_first"@) == Some(JsonView::Bool(true))
            &&& reads_text(arguments, "window_id"@, request.window_id)
            &&& reads_text(arguments, "role"@, request.role)
            &&& reads_text(arguments, "tool_namespace"@, request.tool_namespace)
            &&& reads_text(arguments, "tool_name"@, request.tool_name)
            &&& request.query == query
        },
        field_of(arguments, "limit"@) is None && field_of(arguments, "max_chars_per_item"@) is None && field_of(
            arguments,
            "cursor"@,
        ) is None ==> items_request(arguments, query) is Ok,
{
    lemma_cursor(arguments);
}

/// A search is asked for with a text of 1 to 1,000 characters, and then like a list with that query.
pub proof fn law_search_request_reads_query(arguments: JsonView)
    ensures
        match field_of(arguments, "query"@) {
            Some(JsonView::Text(query)) => if 1 <= query.len() <= 1_000 {
                search_request(arguments) == items_request(arguments, Some(query))
            } else {
                search_request(arguments) is Err
            },
            _ => search_request(arguments) is Err,
        },
{
}

/// An item is read as the arguments say: by both references, from the given character on, 4,000 characters
/// unless they say otherwise, never more than 20,000.
pub proof fn law_read_request_reads_arguments(arguments: JsonView)
    ensures
        read_request(arguments) matches Ok(request) ==> {
            &&& field_of(arguments, "item_id"@) == Some(JsonView::Text(request.item_id))
            &&& field_of(arguments, "window_id"@) == Some(JsonView::Text(request.window_id))
            &&& match field_of(arguments, "offset_chars"@) {
                None => request.offset == 0,
                Some(value) => value == JsonView::Number(NumberView::Unsigned(request.offset as u64)),
            }
            &&& reads_count(arguments, "limit_chars"@, 4_000, 20_000, request.limit as int)
        },
        field_of(arguments, "item_id"@) matches Some(JsonView::Text(_)) && field_of(arguments, "window_id"@) matches Some(
            JsonView::Text(_),
        ) && (field_of(arguments, "offset_chars"@) is None || (field_of(arguments, "offset_chars"@) matches Some(
            JsonView::Number(NumberView::Unsigned(offset)),
        ) && offset <= usize::MAX)) && field_of(arguments, "limit_chars"@) is None ==> read_request(arguments) is Ok,
{
}

} // verus!
