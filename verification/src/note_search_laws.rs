//! What a search through the notes shows, stated over the lines of the notes and the answer itself.

use vstd::prelude::*;

use crate::json::field_of;
use crate::json::items_in;
use crate::json::json_size;
use crate::json::text_field;
use crate::json::with_field;
use crate::json::JsonView;
use crate::json::NumberView;
use crate::note_helpers::bounded;
use crate::note_helpers::bounded_array;
use crate::note_helpers::byte_prefix;
use crate::note_helpers::note_fits;
use crate::note_helpers::thinned;
use crate::note_storage::NoteError;
use crate::note_storage::NoteFileView;
use crate::notes::match_view;
use crate::notes::matching_lines;
use crate::notes::search_answer;
use crate::notes::search_start;
use crate::notes::whole_search;
use crate::notes::SearchRequestView;
use crate::notes::SearchStateView;
use crate::notes::SearchTargetsView;
use crate::text::law_occurrence;
use crate::text::lemma_utf8_len_bounds;
use crate::text::lines_of;
use crate::text::occurs;
use crate::text::utf8_len;

verus! {

/// The query stands somewhere in the line.
pub open spec fn holds_query(line: Seq<char>, query: Seq<char>) -> bool {
    exists|before: Seq<char>, behind: Seq<char>| #[trigger] (before + query + behind) == line
}

/// What is shown of a line: the line itself where it has at most 768 bytes; otherwise its longest beginning
/// that leaves room for the marker behind it, said to be cut.
pub open spec fn shows_line(shown: Seq<char>, cut: bool, line: Seq<char>) -> bool {
    if utf8_len(line) <= 768 {
        shown == line && !cut
    } else {
        cut && exists|kept: int|
            #![trigger line.take(kept)]
            0 <= kept < line.len() && shown == line.take(kept) + "\n[truncated]"@ && utf8_len(line.take(kept)) <= 756
                && utf8_len(line.take(kept + 1)) > 756
    }
}

/// The value tells of the line with the index `number` of the note at the path: its path, the number of the
/// line, counted from one, and the line.
pub open spec fn tells_line(value: JsonView, path: Seq<char>, text: Seq<char>, number: int) -> bool {
    &&& text_field(value, "path"@) == Some(path)
    &&& field_of(value, "line"@) == Some(JsonView::Number(NumberView::Unsigned((number + 1) as u64)))
    &&& match (text_field(value, "text"@), field_of(value, "truncated"@)) {
        (Some(shown), Some(JsonView::Bool(cut))) => shows_line(shown, cut, lines_of(text)[number]),
        _ => false,
    }
}

/// The longest beginning within a budget.
pub proof fn lemma_longest_beginning(text: Seq<char>, budget: nat) -> (kept: int)
    requires
        utf8_len(text) > budget,
    ensures
        0 <= kept < text.len(),
        byte_prefix(text, budget) == text.take(kept),
        utf8_len(text.take(kept)) <= budget,
        utf8_len(text.take(kept + 1)) > budget,
    decreases text.len(),
{
    lemma_utf8_len_bounds(text);
    let shorter = text.drop_last();
    assert(text.take(text.len() as int) =~= text);
    assert(text.take(text.len() - 1) =~= shorter);
    if utf8_len(shorter) <= budget {
        assert(byte_prefix(shorter, budget) == shorter);
        text.len() - 1
    } else {
        let kept = lemma_longest_beginning(shorter, budget);
        assert(shorter.take(kept) =~= text.take(kept));
        assert(shorter.take(kept + 1) =~= text.take(kept + 1));
        kept
    }
}

/// The marker takes 12 bytes.
pub proof fn lemma_marker()
    ensures
        utf8_len("\n[truncated]"@) == 12,
{
    reveal_strlit("\n[truncated]");
    assert("\n[truncated]"@.len() == 12);
    let marker = "\n[truncated]"@;
    assert forall|i: int| 0 <= i < marker.len() implies (#[trigger] marker[i] as u32) < 0x80 by {}
    lemma_ascii_size(marker);
}

/// Each character of plain text takes one byte.
proof fn lemma_ascii_size(text: Seq<char>)
    requires
        forall|i: int| 0 <= i < text.len() ==> (#[trigger] text[i] as u32) < 0x80,
    ensures
        utf8_len(text) == text.len(),
    decreases text.len(),
{
    if text.len() > 0 {
        let shorter = text.drop_last();
        assert forall|i: int| 0 <= i < shorter.len() implies (#[trigger] shorter[i] as u32) < 0x80 by {
            assert(shorter[i] == text[i]);
        }
        lemma_ascii_size(shorter);
        crate::text::lemma_utf8_len_push(shorter, text.last());
        assert(shorter.push(text.last()) =~= text);
        assert(text[text.len() - 1] as u32 <= 0x7f);
    } else {
        lemma_utf8_len_bounds(text);
    }
}

/// The match says that its line is cut.
pub open spec fn is_cut(value: JsonView) -> bool {
    field_of(value, "truncated"@) == Some(JsonView::Bool(true))
}

/// The names in a match differ.
proof fn lemma_match_names()
    ensures
        "path"@.len() == 4 && "path"@[0] == 'p',
        "line"@.len() == 4 && "line"@[0] == 'l',
        "text"@.len() == 4 && "text"@[0] == 't',
        "truncated"@.len() == 9,
{
    reveal_strlit("path");
    reveal_strlit("line");
    reveal_strlit("text");
    reveal_strlit("truncated");
}

/// What a search says of one line.
proof fn lemma_match(path: Seq<char>, text: Seq<char>, number: int)
    requires
        0 <= number < lines_of(text).len(),
    ensures
        ({
            let (shown, cut) = bounded(lines_of(text)[number], 768);
            tells_line(match_view(path, (number + 1) as nat, shown, cut), path, text, number)
        }),
{
    lemma_match_names();
    let line = lines_of(text)[number];
    lemma_marker();
    if utf8_len(line) > 768 {
        let kept = lemma_longest_beginning(line, 756);
        assert(line.take(kept) + "\n[truncated]"@ == bounded(line, 768).0);
    }
}

/// The lines of a note that hold the query, by their indexes.
proof fn lemma_matching_lines(path: Seq<char>, text: Seq<char>, query: Seq<char>, from: nat) -> (numbers: Seq<int>)
    ensures
        numbers.len() == matching_lines(path, lines_of(text), query, from).len(),
        forall|k: int| 0 <= k < numbers.len() ==> from <= #[trigger] numbers[k] < lines_of(text).len(),
        forall|k: int| 0 <= k < numbers.len() ==> holds_query(lines_of(text)[#[trigger] numbers[k]], query),
        forall|k: int|
            0 <= k < numbers.len() ==> tells_line(
                matching_lines(path, lines_of(text), query, from)[k],
                path,
                text,
                #[trigger] numbers[k],
            ),
        forall|j: int, k: int| 0 <= j < k < numbers.len() ==> #[trigger] numbers[j] < #[trigger] numbers[k],
        forall|n: int|
            from <= n < lines_of(text).len() && holds_query(#[trigger] lines_of(text)[n], query) ==> numbers.contains(n),
    decreases lines_of(text).len() - from,
{
    let lines = lines_of(text);
    if from >= lines.len() {
        Seq::empty()
    } else {
        let rest = lemma_matching_lines(path, text, query, from + 1);
        law_occurrence(lines[from as int], query);
        if occurs(lines[from as int], query) {
            let numbers = seq![from as int] + rest;
            let all = matching_lines(path, lines, query, from);
            let later = matching_lines(path, lines, query, from + 1);
            lemma_match(path, text, from as int);
            assert forall|k: int| 0 <= k < numbers.len() implies tells_line(all[k], path, text, #[trigger] numbers[k])
                && holds_query(lines[numbers[k]], query) && from <= numbers[k] < lines.len() by {
                if k > 0 {
                    assert(numbers[k] == rest[k - 1]);
                    assert(all[k] == later[k - 1]);
                }
            }
            assert forall|j: int, k: int| 0 <= j < k < numbers.len() implies #[trigger] numbers[j]
                < #[trigger] numbers[k] by {
                assert(numbers[k] == rest[k - 1]);
                if j > 0 {
                    assert(numbers[j] == rest[j - 1]);
                }
            }
            assert forall|n: int| from <= n < lines.len() && holds_query(#[trigger] lines[n], query) implies numbers.contains(
                n,
            ) by {
                if n == from {
                    assert(numbers[0] == n);
                } else {
                    let k = choose|k: int| 0 <= k < rest.len() && rest[k] == n;
                    assert(numbers[k + 1] == n);
                }
            }
            numbers
        } else {
            assert forall|n: int| from <= n < lines.len() && holds_query(#[trigger] lines[n], query) implies rest.contains(
                n,
            ) by {
                assert(n != from);
            }
            rest
        }
    }
}

/// How many of the lines of a note that hold the query are shown: all, up to the limit on matches, unless
/// the answer with one more would be larger than 8,000 bytes. Nothing else is left out, and what is left
/// out is said to be.
pub proof fn law_lines_are_left_out_for_room(
    state: SearchStateView,
    path: Seq<char>,
    lines: Seq<Seq<char>>,
    query: Seq<char>,
    max_matches: usize,
    from: nat,
    count: nat,
) -> (taken: nat)
    requires
        count <= max_matches,
    ensures
        ({
            let (after, found) = state.after_lines(path, lines, query, max_matches, from, count);
            let all = matching_lines(path, lines, query, from);
            &&& taken <= all.len()
            &&& after.matches == state.matches + all.take(taken as int)
            &&& count + taken <= max_matches
            &&& taken < all.len() ==> after.truncated
            &&& taken < all.len() && count + taken < max_matches ==> exists|cut: bool|
                #![trigger (SearchStateView {
                    matches: state.matches + all.take(taken as int + 1),
                    truncated: cut,
                    ..state
                }).rendered()]
                json_size(
                    (SearchStateView {
                        matches: state.matches + all.take(taken as int + 1),
                        truncated: cut,
                        ..state
                    }).rendered(),
                ) > 8_000
            &&& after.truncated <==> state.truncated || taken < all.len() || exists|k: int|
                0 <= k < taken && is_cut(#[trigger] all[k])
            &&& after.errors == state.errors
            &&& after.scanned == state.scanned
            &&& after.with_matches == state.with_matches
            &&& found >= count
            &&& found > count <==> all.len() > 0
        }),
    decreases lines.len() - from,
{
    let all = matching_lines(path, lines, query, from);
    if from >= lines.len() {
        assert(state.matches + all.take(0) =~= state.matches);
        0
    } else if !occurs(lines[from as int], query) {
        law_lines_are_left_out_for_room(state, path, lines, query, max_matches, from + 1, count)
    } else if count >= max_matches {
        assert(state.matches + all.take(0) =~= state.matches);
        0
    } else {
        let found = state.with_match(path, from + 1, lines[from as int]);
        let later = matching_lines(path, lines, query, from + 1);
        lemma_match_names();
        assert(is_cut(all[0]) == bounded(lines[from as int], 768).1);
        assert(state.matches + all.take(1) =~= found.matches);
        if note_fits(found.rendered()) {
            let taken = law_lines_are_left_out_for_room(found, path, lines, query, max_matches, from + 1, count + 1);
            assert(found.matches + later.take(taken as int) =~= state.matches + all.take(taken as int + 1));
            assert forall|k: int| 0 <= k < taken implies #[trigger] later[k] == all[k + 1] by {}
            if exists|k: int| 0 <= k < taken && is_cut(#[trigger] later[k]) {
                let k = choose|k: int| 0 <= k < taken && is_cut(#[trigger] later[k]);
                assert(is_cut(all[k + 1]));
            }
            if exists|k: int| 0 < k < taken + 1 && is_cut(#[trigger] all[k]) {
                let k = choose|k: int| 0 < k < taken + 1 && is_cut(#[trigger] all[k]);
                assert(is_cut(later[k - 1]));
            }
            if taken < later.len() && count + 1 + taken < max_matches {
                assert(found.matches + later.take(taken as int + 1) =~= state.matches + all.take(taken as int + 2));
                let cut = choose|cut: bool|
                    #![trigger (SearchStateView {
                        matches: found.matches + later.take(taken as int + 1),
                        truncated: cut,
                        ..found
                    }).rendered()]
                    json_size(
                        (SearchStateView {
                            matches: found.matches + later.take(taken as int + 1),
                            truncated: cut,
                            ..found
                        }).rendered(),
                    ) > 8_000;
                let full = SearchStateView {
                    matches: state.matches + all.take(taken as int + 2),
                    truncated: cut,
                    ..state
                };
                assert(full == SearchStateView {
                    matches: found.matches + later.take(taken as int + 1),
                    truncated: cut,
                    ..found
                });
                assert(json_size(full.rendered()) > 8_000);
            }
            taken + 1
        } else {
            assert(state.matches + all.take(0) =~= state.matches);
            let full = SearchStateView { matches: state.matches + all.take(1), truncated: found.truncated, ..state };
            assert(full == found);
            assert(json_size(full.rendered()) > 8_000);
            0
        }
    }
}

/// The place of a line: the index of its note among those that are searched, and its index in the note.
pub open spec fn earlier(left: (int, int), right: (int, int)) -> bool {
    left.0 < right.0 || (left.0 == right.0 && left.1 < right.1)
}

/// The place is that of a line that holds the query, in one of the first `count` notes.
pub open spec fn is_match(
    contents: Seq<Result<String, NoteError>>,
    query: Seq<char>,
    count: int,
    place: (int, int),
) -> bool {
    &&& 0 <= place.0 < count
    &&& contents[place.0] matches Ok(text) && 0 <= place.1 < lines_of(text@).len() && holds_query(
        lines_of(text@)[place.1],
        query,
    )
}

/// The matches are the lines at the places, which lie one behind the other, no more than `maximum` in one
/// note and none left out before another one of the same note.
pub open spec fn shows_places(
    matches: Seq<JsonView>,
    files: Seq<NoteFileView>,
    contents: Seq<Result<String, NoteError>>,
    query: Seq<char>,
    maximum: usize,
    count: int,
    places: Seq<(int, int)>,
) -> bool {
    &&& matches.len() == places.len()
    &&& forall|k: int|
        0 <= k < places.len() ==> is_match(contents, query, count, #[trigger] places[k]) && tells_line(
            matches[k],
            files[places[k].0].path,
            contents[places[k].0]->Ok_0@,
            places[k].1,
        )
    &&& forall|j: int, k: int| 0 <= j < k < places.len() ==> earlier(#[trigger] places[j], #[trigger] places[k])
    &&& forall|j: int, k: int|
        0 <= j && j + maximum <= k < places.len() ==> (#[trigger] places[j]).0 < (#[trigger] places[k]).0
    &&& forall|k: int, place: (int, int)|
        0 <= k < places.len() && place.0 == (#[trigger] places[k]).0 && place.1 < places[k].1 && #[trigger] is_match(
            contents,
            query,
            count,
            place,
        ) ==> places.contains(place)
}

/// How many of the first notes hold the query.
pub open spec fn notes_holding(contents: Seq<Result<String, NoteError>>, query: Seq<char>, count: nat) -> nat
    decreases count,
{
    if count == 0 {
        0
    } else {
        notes_holding(contents, query, (count - 1) as nat) + (if exists|n: int|
            #[trigger] is_match(contents, query, count as int, (count - 1, n)) {
            1nat
        } else {
            0nat
        })
    }
}

/// How many of the first notes could not be read.
pub open spec fn notes_unread(contents: Seq<Result<String, NoteError>>, count: nat) -> nat
    decreases count,
{
    if count == 0 {
        0
    } else {
        notes_unread(contents, (count - 1) as nat) + (if contents[count - 1] is Err {
            1nat
        } else {
            0nat
        })
    }
}

/// No more are counted than there are.
proof fn lemma_counts(contents: Seq<Result<String, NoteError>>, query: Seq<char>, count: nat)
    ensures
        notes_holding(contents, query, count) <= count,
        notes_unread(contents, count) <= count,
    decreases count,
{
    if count > 0 {
        lemma_counts(contents, query, (count - 1) as nat);
    }
}

/// The value tells of a note that could not be read: its path and why.
pub open spec fn tells_unread(value: JsonView, path: Seq<char>, error: NoteError) -> bool {
    &&& text_field(value, "path"@) == Some(path)
    &&& text_field(value, "reason"@) == Some(
        match error {
            NoteError::NotFound => "not_found"@,
            NoteError::UnsafePath => "unsafe_path"@,
            NoteError::NotAFile => "not_a_file"@,
            NoteError::TooLarge => "too_large"@,
            NoteError::NonUtf8 => "non_utf8"@,
            NoteError::Io => "io_error"@,
        },
    )
}

/// Something of the first notes is left out: the scan was cut, a note could not be read, a line that holds the
/// query is not shown, or one that is shown is cut.
pub open spec fn leaves_out(
    matches: Seq<JsonView>,
    contents: Seq<Result<String, NoteError>>,
    query: Seq<char>,
    scan_truncated: bool,
    count: nat,
    places: Seq<(int, int)>,
) -> bool {
    ||| scan_truncated
    ||| notes_unread(contents, count) > 0
    ||| exists|place: (int, int)| #[trigger] is_match(contents, query, count as int, place) && !places.contains(place)
    ||| exists|k: int| 0 <= k < matches.len() && is_cut(#[trigger] matches[k])
}

/// What a search of the first notes comes to.
proof fn lemma_places(
    request: SearchRequestView,
    files: Seq<NoteFileView>,
    contents: Seq<Result<String, NoteError>>,
    start_truncated: bool,
    count: nat,
) -> (places: Seq<(int, int)>)
    requires
        count <= u64::MAX,
    ensures
        ({
            let after = search_start(start_truncated).after_notes(request, files, contents, count);
            &&& shows_places(after.matches, files, contents, request.query, request.max_matches, count as int, places)
            &&& after.scanned == count
            &&& after.with_matches == notes_holding(contents, request.query, count)
            &&& after.truncated <==> leaves_out(
                after.matches,
                contents,
                request.query,
                start_truncated,
                count,
                places,
            )
            &&& after.errors.len() == notes_unread(contents, count)
            &&& forall|i: int|
                0 <= i < count && (#[trigger] contents[i] is Err) ==> {
                    let at = notes_unread(contents, i as nat) as int;
                    at < after.errors.len() && tells_unread(after.errors[at], files[i].path, contents[i]->Err_0)
                }
        }),
    decreases count,
{
    lemma_counts(contents, request.query, count);
    if count == 0 {
        Seq::empty()
    } else {
        let start = search_start(start_truncated);
        let prior = (count - 1) as nat;
        let before = start.after_notes(request, files, contents, prior);
        let after = start.after_notes(request, files, contents, count);
        let old_places = lemma_places(request, files, contents, start_truncated, prior);
        let counted = SearchStateView { scanned: (before.scanned + 1) as u64, ..before };
        lemma_counts(contents, request.query, prior);
        assert forall|place: (int, int)| #[trigger] is_match(contents, request.query, count as int, place) && place.0
            < prior implies is_match(contents, request.query, prior as int, place) by {}
        assert forall|place: (int, int)| #[trigger] is_match(
            contents,
            request.query,
            prior as int,
            place,
        ) implies is_match(contents, request.query, count as int, place) by {}
        match contents[count - 1] {
            Err(error) => {
                reveal_strlit("path");
                reveal_strlit("reason");
                assert("path"@.len() == 4 && "reason"@.len() == 6);
                assert forall|n: int| !#[trigger] is_match(contents, request.query, count as int, (count - 1, n)) by {}
                assert(notes_unread(contents, count) > 0);
                assert forall|i: int| 0 <= i < count && (#[trigger] contents[i] is Err) implies ({
                    let at = notes_unread(contents, i as nat) as int;
                    at < after.errors.len() && tells_unread(after.errors[at], files[i].path, contents[i]->Err_0)
                }) by {
                    if i < prior {
                        let at = notes_unread(contents, i as nat) as int;
                        assert(after.errors[at] == before.errors[at]);
                    }
                }
                old_places
            },
            Ok(text) => {
                let path = files[count - 1].path;
                let lines = lines_of(text@);
                let taken = law_lines_are_left_out_for_room(
                    counted,
                    path,
                    lines,
                    request.query,
                    request.max_matches,
                    0,
                    0,
                );
                let numbers = lemma_matching_lines(path, text@, request.query, 0);
                let all = matching_lines(path, lines, request.query, 0);
                let new_places = Seq::new(taken, |k: int| (count - 1, numbers[k]));
                let places = old_places + new_places;
                assert(after.matches == before.matches + all.take(taken as int));
                assert forall|k: int| 0 <= k < places.len() implies is_match(
                    contents,
                    request.query,
                    count as int,
                    #[trigger] places[k],
                ) && tells_line(
                    after.matches[k],
                    files[places[k].0].path,
                    contents[places[k].0]->Ok_0@,
                    places[k].1,
                ) by {
                    if k < old_places.len() {
                        assert(places[k] == old_places[k]);
                        assert(after.matches[k] == before.matches[k]);
                    } else {
                        let at = k - old_places.len();
                        assert(places[k] == (count - 1, numbers[at]));
                        assert(after.matches[k] == all[at]);
                    }
                }
                assert forall|j: int, k: int| 0 <= j < k < places.len() implies earlier(
                    #[trigger] places[j],
                    #[trigger] places[k],
                ) by {
                    if k < old_places.len() {
                        assert(places[j] == old_places[j] && places[k] == old_places[k]);
                    } else {
                        assert(places[k] == (count - 1, numbers[k - old_places.len()]));
                        if j < old_places.len() {
                            assert(places[j] == old_places[j]);
                            assert(is_match(contents, request.query, prior as int, old_places[j]));
                        } else {
                            assert(places[j] == (count - 1, numbers[j - old_places.len()]));
                        }
                    }
                }
                assert forall|j: int, k: int| 0 <= j && j + request.max_matches <= k < places.len() implies (
                #[trigger] places[j]).0 < (#[trigger] places[k]).0 by {
                    if k < old_places.len() {
                        assert(places[j] == old_places[j] && places[k] == old_places[k]);
                    } else {
                        assert(j < old_places.len());
                        assert(places[j] == old_places[j]);
                        assert(is_match(contents, request.query, prior as int, old_places[j]));
                    }
                }
                assert forall|k: int, place: (int, int)|
                    0 <= k < places.len() && place.0 == (#[trigger] places[k]).0 && place.1 < places[k].1
                        && #[trigger] is_match(contents, request.query, count as int, place) implies places.contains(
                    place,
                ) by {
                    if k < old_places.len() {
                        assert(places[k] == old_places[k]);
                        assert(is_match(contents, request.query, prior as int, old_places[k]));
                        assert(is_match(contents, request.query, prior as int, place));
                        let at = choose|at: int| 0 <= at < old_places.len() && old_places[at] == place;
                        assert(places[at] == place);
                    } else {
                        assert(holds_query(lines[place.1], request.query));
                        let at = choose|at: int| 0 <= at < numbers.len() && numbers[at] == place.1;
                        let here = k - old_places.len();
                        assert(places[k] == (count - 1, numbers[here]));
                        if at >= here {
                            assert(numbers[here] <= numbers[at]);
                        }
                        assert(new_places[at] == place);
                        assert(places[old_places.len() + at] == place);
                    }
                }
                lemma_left_out(
                    before.matches,
                    after.matches,
                    contents,
                    request.query,
                    start_truncated,
                    prior,
                    old_places,
                    all,
                    taken,
                    numbers,
                );
                if numbers.len() > 0 {
                    assert(is_match(contents, request.query, count as int, (count - 1, numbers[0])));
                } else {
                    assert forall|n: int| !#[trigger] is_match(
                        contents,
                        request.query,
                        count as int,
                        (count - 1, n),
                    ) by {
                        if is_match(contents, request.query, count as int, (count - 1, n)) {
                            assert(holds_query(lines[n], request.query));
                        }
                    }
                }
                places
            },
        }
    }
}

/// One more note adds its lines that are not shown and those that are cut to what is left out.
proof fn lemma_left_out(
    before: Seq<JsonView>,
    after: Seq<JsonView>,
    contents: Seq<Result<String, NoteError>>,
    query: Seq<char>,
    scan_truncated: bool,
    prior: nat,
    old_places: Seq<(int, int)>,
    all: Seq<JsonView>,
    taken: nat,
    numbers: Seq<int>,
)
    requires
        contents[prior as int] is Ok,
        taken <= all.len(),
        all.len() == numbers.len(),
        after == before + all.take(taken as int),
        forall|k: int| 0 <= k < old_places.len() ==> is_match(contents, query, prior as int, #[trigger] old_places[k]),
        forall|k: int|
            0 <= k < numbers.len() ==> is_match(contents, query, prior as int + 1, (prior as int, #[trigger] numbers[k])),
        forall|j: int, k: int| 0 <= j < k < numbers.len() ==> #[trigger] numbers[j] < #[trigger] numbers[k],
        forall|n: int|
            #[trigger] is_match(contents, query, prior as int + 1, (prior as int, n)) ==> numbers.contains(n),
    ensures
        leaves_out(
            after,
            contents,
            query,
            scan_truncated,
            prior + 1,
            old_places + Seq::new(taken, |k: int| (prior as int, numbers[k])),
        ) <==> leaves_out(before, contents, query, scan_truncated, prior, old_places) || taken < all.len() || exists|
            k: int,
        |
            0 <= k < taken && is_cut(#[trigger] all[k]),
{
    let count = prior + 1;
    let new_places = Seq::new(taken, |k: int| (prior as int, numbers[k]));
    let places = old_places + new_places;
    assert(notes_unread(contents, count) == notes_unread(contents, prior));
    if exists|place: (int, int)| #[trigger] is_match(contents, query, prior as int, place) && !old_places.contains(place) {
        let place = choose|place: (int, int)|
            #[trigger] is_match(contents, query, prior as int, place) && !old_places.contains(place);
        assert(is_match(contents, query, count as int, place));
        if places.contains(place) {
            let k = choose|k: int| 0 <= k < places.len() && places[k] == place;
            if k < old_places.len() {
                assert(old_places[k] == place);
            } else {
                assert(new_places[k - old_places.len()] == place);
            }
        }
    }
    if taken < all.len() {
        let place = (prior as int, numbers[taken as int]);
        assert(is_match(contents, query, count as int, place));
        if places.contains(place) {
            let k = choose|k: int| 0 <= k < places.len() && places[k] == place;
            if k < old_places.len() {
                assert(is_match(contents, query, prior as int, old_places[k]));
            } else {
                assert(new_places[k - old_places.len()] == place);
                assert(numbers[k - old_places.len()] < numbers[taken as int]);
            }
        }
    }
    if exists|place: (int, int)| #[trigger] is_match(contents, query, count as int, place) && !places.contains(place) {
        let place = choose|place: (int, int)|
            #[trigger] is_match(contents, query, count as int, place) && !places.contains(place);
        if place.0 < prior {
            assert(is_match(contents, query, prior as int, place));
            if old_places.contains(place) {
                let k = choose|k: int| 0 <= k < old_places.len() && old_places[k] == place;
                assert(places[k] == place);
            }
        } else {
            assert(place == (prior as int, place.1));
            let k = choose|k: int| 0 <= k < numbers.len() && numbers[k] == place.1;
            if k < taken {
                assert(new_places[k] == place);
                assert(places[old_places.len() + k] == place);
            }
        }
    }
    if exists|k: int| 0 <= k < before.len() && is_cut(#[trigger] before[k]) {
        let k = choose|k: int| 0 <= k < before.len() && is_cut(#[trigger] before[k]);
        assert(is_cut(after[k]));
    }
    if exists|k: int| 0 <= k < taken && is_cut(#[trigger] all[k]) {
        let k = choose|k: int| 0 <= k < taken && is_cut(#[trigger] all[k]);
        assert(is_cut(after[before.len() + k]));
    }
    if exists|k: int| 0 <= k < after.len() && is_cut(#[trigger] after[k]) {
        let k = choose|k: int| 0 <= k < after.len() && is_cut(#[trigger] after[k]);
        if k < before.len() {
            assert(is_cut(before[k]));
        } else {
            assert(is_cut(all[k - before.len()]));
        }
    }
}

/// Earlier notes that could not be read are fewer.
proof fn lemma_unread_grows(contents: Seq<Result<String, NoteError>>, index: nat, count: nat)
    requires
        index < count,
    ensures
        notes_unread(contents, index) <= notes_unread(contents, count),
        contents[index as int] is Err ==> notes_unread(contents, index) < notes_unread(contents, count),
    decreases count,
{
    if index < count - 1 {
        lemma_unread_grows(contents, index, (count - 1) as nat);
    }
}

/// What is left of an array that was cut to what fits.
proof fn lemma_bounded_array(value: JsonView, field: Seq<char>, other: Seq<char>)
    requires
        value is Object,
        field != "truncated"@,
        other != "truncated"@,
        field != "status"@,
        other != "status"@,
        other != field,
        field_of(value, field) matches Some(JsonView::Array(_)),
        field_of(value, "status"@) == Some(JsonView::Text("ok"@)),
    ensures
        bounded_array(value, field) is Object,
        items_in(bounded_array(value, field), field).is_prefix_of(items_in(value, field)),
        items_in(bounded_array(value, field), other).is_prefix_of(items_in(value, other)),
        json_size(value) <= 8_000 ==> bounded_array(value, field) == value,
        json_size(value) > 8_000 ==> field_of(bounded_array(value, field), "truncated"@) == Some(JsonView::Bool(true)),
        field_of(bounded_array(value, field), "status"@) == Some(JsonView::Text("ok"@)),
{
    reveal_strlit("status");
    reveal_strlit("truncated");
    assert("status"@.len() == 6 && "truncated"@.len() == 9);
    lemma_thinned(value, field, other);
}

/// What is left of an array of which the last items were taken off.
proof fn lemma_thinned(value: JsonView, field: Seq<char>, other: Seq<char>)
    requires
        value is Object,
        other != field,
        field != "status"@,
    ensures
        thinned(value, field) is Object,
        items_in(thinned(value, field), field).is_prefix_of(items_in(value, field)),
        items_in(thinned(value, field), other) == items_in(value, other),
        field_of(thinned(value, field), "status"@) == field_of(value, "status"@),
    decreases items_in(value, field).len(),
{
    if !(note_fits(value) || items_in(value, field).len() == 0) {
        let shorter = with_field(value, field, JsonView::Array(items_in(value, field).drop_last()));
        lemma_thinned(shorter, field, other);
        assert(items_in(shorter, field) =~= items_in(value, field).drop_last());
    }
}

/// The matches that a search answers with are lines of the notes that hold the query, each with the path of
/// its note, its number and its own text, whole or its bounded beginning: the first ones of each note, in
/// the order of the notes and their lines. Where the answer does not say that something was left out,
/// every line that holds the query is among them, and every note could be read.
pub proof fn law_search_shows_the_lines(
    request: SearchRequestView,
    targets: SearchTargetsView,
    contents: Seq<Result<String, NoteError>>,
) -> (places: Seq<(int, int)>)
    requires
        targets.files.len() == contents.len() <= u64::MAX,
    ensures
        ({
            let answer = search_answer(request, targets, contents);
            let count = targets.files.len() as int;
            &&& shows_places(
                items_in(answer, "matches"@),
                targets.files,
                contents,
                request.query,
                request.max_matches,
                count,
                places,
            )
            &&& field_of(answer, "truncated"@) == Some(JsonView::Bool(false)) ==> {
                &&& forall|place: (int, int)|
                    #[trigger] is_match(contents, request.query, count, place) ==> places.contains(place)
                &&& forall|i: int| 0 <= i < count ==> #[trigger] contents[i] is Ok
                &&& !targets.scan_truncated
                &&& targets.file_count <= request.max_files
            }
        }),
{
    let whole = whole_search(request, targets, contents);
    let count = targets.files.len();
    let all = lemma_places(request, targets.files, contents, targets.scan_truncated, count);
    let answer = lemma_answer(whole);
    assert(answer == search_answer(request, targets, contents));
    let shown = items_in(answer, "matches"@);
    let places = all.take(shown.len() as int);
    assert forall|k: int| 0 <= k < places.len() implies places[k] == all[k] && shown[k] == whole.matches[k] by {}
    assert forall|k: int| 0 <= k < places.len() implies is_match(
        contents,
        request.query,
        count as int,
        #[trigger] places[k],
    ) && tells_line(
        shown[k],
        targets.files[places[k].0].path,
        contents[places[k].0]->Ok_0@,
        places[k].1,
    ) by {
        assert(places[k] == all[k]);
    }
    assert forall|j: int, k: int| 0 <= j < k < places.len() implies earlier(
        #[trigger] places[j],
        #[trigger] places[k],
    ) by {
        assert(earlier(all[j], all[k]));
    }
    assert forall|j: int, k: int| 0 <= j && j + request.max_matches <= k < places.len() implies (
    #[trigger] places[j]).0 < (#[trigger] places[k]).0 by {
        assert(all[j].0 < all[k].0);
    }
    assert forall|k: int, place: (int, int)|
        0 <= k < places.len() && place.0 == (#[trigger] places[k]).0 && place.1 < places[k].1 && #[trigger] is_match(
            contents,
            request.query,
            count as int,
            place,
        ) implies places.contains(place) by {
        assert(all[k] == places[k]);
        assert(all.contains(place));
        let at = choose|at: int| 0 <= at < all.len() && all[at] == place;
        if at >= k {
            assert(at == k || earlier(all[k], all[at]));
        }
        assert(places[at] == place);
    }
    if field_of(answer, "truncated"@) == Some(JsonView::Bool(false)) {
        assert(places =~= all);
        assert forall|i: int| 0 <= i < count implies #[trigger] contents[i] is Ok by {
            lemma_unread_grows(contents, i as nat, count);
        }
    }
    places
}

/// The answer of a search, from what it came to.
proof fn lemma_answer(whole: SearchStateView) -> (answer: JsonView)
    ensures
        answer == bounded_array(bounded_array(whole.rendered(), "matches"@), "errors"@),
        items_in(answer, "matches"@).is_prefix_of(whole.matches),
        items_in(answer, "errors"@).is_prefix_of(whole.errors),
        field_of(answer, "truncated"@) == Some(JsonView::Bool(false)) ==> answer == whole.rendered()
            && !whole.truncated && items_in(answer, "matches"@) == whole.matches,
        json_size(whole.rendered()) <= 8_000 ==> answer == whole.rendered(),
        field_of(answer, "status"@) == Some(JsonView::Text("ok"@)),
        field_of(whole.rendered(), "files_scanned"@) == Some(JsonView::Number(NumberView::Unsigned(whole.scanned))),
        field_of(whole.rendered(), "files_with_matches"@) == Some(
            JsonView::Number(NumberView::Unsigned(whole.with_matches)),
        ),
        field_of(whole.rendered(), "errors"@) == Some(JsonView::Array(whole.errors)),
        field_of(whole.rendered(), "truncated"@) == Some(JsonView::Bool(whole.truncated)),
{
    reveal_strlit("matches");
    reveal_strlit("files_scanned");
    reveal_strlit("files_with_matches");
    reveal_strlit("errors");
    reveal_strlit("truncated");
    reveal_strlit("status");
    assert("matches"@.len() == 7 && "files_scanned"@.len() == 13 && "files_with_matches"@.len() == 18
        && "errors"@.len() == 6 && "truncated"@.len() == 9 && "status"@.len() == 6);
    assert("errors"@[0] == 'e' && "status"@[0] == 's');
    let first = bounded_array(whole.rendered(), "matches"@);
    lemma_bounded_array(whole.rendered(), "matches"@, "errors"@);
    if json_size(whole.rendered()) <= 8_000 {
        lemma_bounded_array(first, "errors"@, "matches"@);
    } else {
        lemma_thinned(first, "errors"@, "matches"@);
        lemma_keeps_truncated(whole.rendered(), "matches"@);
        lemma_keeps_truncated(first, "errors"@);
    }
    bounded_array(first, "errors"@)
}

/// What was said to be cut stays so.
proof fn lemma_keeps_truncated(value: JsonView, field: Seq<char>)
    requires
        field != "truncated"@,
    ensures
        field_of(value, "truncated"@) == Some(JsonView::Bool(true)) ==> field_of(
            bounded_array(value, field),
            "truncated"@,
        ) == Some(JsonView::Bool(true)),
    decreases items_in(value, field).len(),
{
    if !(note_fits(value) || items_in(value, field).len() == 0) {
        lemma_keeps_truncated(
            with_field(value, field, JsonView::Array(items_in(value, field).drop_last())),
            field,
        );
    }
}

/// An answer with room for all says that something was left out exactly where a note could not be read, the
/// scan was cut, a line that holds the query is not shown or shown cut, or there were as many notes as were
/// asked for and fewer were asked for than may be, or more.
pub proof fn law_search_says_what_is_left_out(
    request: SearchRequestView,
    targets: SearchTargetsView,
    contents: Seq<Result<String, NoteError>>,
) -> (places: Seq<(int, int)>)
    requires
        targets.files.len() == contents.len() <= u64::MAX,
        json_size(whole_search(request, targets, contents).rendered()) <= 8_000,
    ensures
        ({
            let answer = search_answer(request, targets, contents);
            let shown = items_in(answer, "matches"@);
            &&& shows_places(
                shown,
                targets.files,
                contents,
                request.query,
                request.max_matches,
                targets.files.len() as int,
                places,
            )
            &&& field_of(answer, "truncated"@) == Some(
                JsonView::Bool(
                    leaves_out(
                        shown,
                        contents,
                        request.query,
                        targets.scan_truncated,
                        targets.files.len(),
                        places,
                    ) || targets.file_count > request.max_files || (request.max_files < 20 && targets.files.len()
                        == request.max_files),
                ),
            )
        }),
{
    let whole = whole_search(request, targets, contents);
    let places = lemma_places(request, targets.files, contents, targets.scan_truncated, targets.files.len());
    let answer = lemma_answer(whole);
    lemma_render_names(whole);
    places
}

/// The matches in an answer are those of the search.
proof fn lemma_render_names(whole: SearchStateView)
    ensures
        items_in(whole.rendered(), "matches"@) == whole.matches,
{
    reveal_strlit("matches");
    reveal_strlit("files_scanned");
    reveal_strlit("files_with_matches");
    reveal_strlit("errors");
    reveal_strlit("truncated");
    assert("matches"@.len() == 7 && "files_scanned"@.len() == 13 && "files_with_matches"@.len() == 18
        && "errors"@.len() == 6 && "truncated"@.len() == 9);
}

/// An answer with room for all tells how many notes were read, in how many of them the query stands, and
/// which could not be read and why, each of them.
pub proof fn law_search_counts_the_notes(
    request: SearchRequestView,
    targets: SearchTargetsView,
    contents: Seq<Result<String, NoteError>>,
)
    requires
        targets.files.len() == contents.len() <= u64::MAX,
        json_size(whole_search(request, targets, contents).rendered()) <= 8_000,
    ensures
        ({
            let answer = search_answer(request, targets, contents);
            let count = targets.files.len();
            &&& field_of(answer, "status"@) == Some(JsonView::Text("ok"@))
            &&& field_of(answer, "files_scanned"@) == Some(JsonView::Number(NumberView::Unsigned(count as u64)))
            &&& field_of(answer, "files_with_matches"@) == Some(
                JsonView::Number(NumberView::Unsigned(notes_holding(contents, request.query, count) as u64)),
            )
            &&& items_in(answer, "errors"@).len() == notes_unread(contents, count)
            &&& forall|i: int|
                0 <= i < count && (#[trigger] contents[i] is Err) ==> {
                    let at = notes_unread(contents, i as nat) as int;
                    at < items_in(answer, "errors"@).len() && tells_unread(
                        items_in(answer, "errors"@)[at],
                        targets.files[i].path,
                        contents[i]->Err_0,
                    )
                }
        }),
{
    let whole = whole_search(request, targets, contents);
    let count = targets.files.len();
    let places = lemma_places(request, targets.files, contents, targets.scan_truncated, count);
    let answer = lemma_answer(whole);
    lemma_counts(contents, request.query, count);
}

} // verus!
