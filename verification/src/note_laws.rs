//! What the note tools do, stated over the files, the texts and the answers themselves.

use vstd::prelude::*;

use crate::history::filled;
use crate::history_laws::reads_count;
use crate::json::field_of;
use crate::json::items_in;
use crate::json::json_size;
use crate::json::text_field;
use crate::json::with_field;
use crate::json::JsonView;
use crate::json::NumberView;
use crate::note_helpers::bounded;
use crate::note_helpers::fitting_count;
use crate::note_helpers::law_fitted_text_is_longest;
use crate::note_helpers::law_listing_is_in_order;
use crate::note_helpers::lines_argument;
use crate::note_helpers::listed_files;
use crate::note_helpers::path_checked;
use crate::note_helpers::FileOrder;
use crate::note_storage::FileScanView;
use crate::note_storage::NoteError;
use crate::note_storage::NoteFileView;
use crate::notes::append_answer;
use crate::notes::appended;
use crate::notes::file_line;
use crate::notes::file_values;
use crate::notes::first_files;
use crate::notes::hint_view;
use crate::notes::index_part;
use crate::notes::kept_count;
use crate::notes::list_answer;
use crate::notes::list_base;
use crate::notes::list_request;
use crate::notes::note_location;
use crate::notes::note_search_request;
use crate::notes::read_file_answer;
use crate::notes::read_note_request;
use crate::notes::targets_of;
use crate::notes::whole_hint;
use crate::notes::with_file_lines;
use crate::notes::with_prefix;
use crate::notes::write_answer;
use crate::notes::write_request;
use crate::notes::ListRequestView;
use crate::notes::NoteListing;
use crate::notes::SearchRequestView;
use crate::notes::WriteRequestView;
use crate::text::decimal;
use crate::text::joined;
use crate::text::lemma_utf8_len_concat;
use crate::text::lemma_utf8_len_take;
use crate::text::lines_of;
use crate::text::pieces;
use crate::text::text_before;
use crate::text::utf8_len;
use crate::text_laws::law_bounded_text_is_the_longest;

verus! {

/// The value tells of the file: its path, its size, its lines and its times.
pub open spec fn tells_file(value: JsonView, file: NoteFileView) -> bool {
    &&& field_of(value, "path"@) == Some(JsonView::Text(file.path))
    &&& field_of(value, "bytes"@) == Some(JsonView::Number(NumberView::Unsigned(file.bytes)))
    &&& match file.lines {
        Some(lines) => field_of(value, "lines"@) == Some(JsonView::Number(NumberView::Unsigned(lines as u64))),
        None => field_of(value, "lines"@) == Some(JsonView::Null),
    }
    &&& field_of(value, "created_at"@) == Some(JsonView::Number(NumberView::Unsigned(file.created_at)))
    &&& field_of(value, "updated_at"@) == Some(JsonView::Number(NumberView::Unsigned(file.updated_at)))
}

/// The first of two files of which one is listed directly or later behind the other, in an ascending order.
pub open spec fn may_precede(left: NoteFileView, right: NoteFileView, order: FileOrder) -> bool {
    match order {
        FileOrder::Name => !text_before(right.path, left.path),
        FileOrder::CreatedAt => left.created_at < right.created_at || (left.created_at == right.created_at
            && !text_before(right.path, left.path)),
        FileOrder::UpdatedAt => left.updated_at < right.updated_at || (left.updated_at == right.updated_at
            && !text_before(right.path, left.path)),
    }
}

/// The row holds the files of the scan whose paths start with the prefix, each as often as it was found, in
/// the order by name, creation or last change that is asked for, or against it.
pub open spec fn in_listing_order(
    row: Seq<NoteFileView>,
    files: Seq<NoteFileView>,
    prefix: Option<Seq<char>>,
    order: FileOrder,
    descending: bool,
) -> bool {
    &&& match prefix {
        Some(prefix) => row.to_multiset() == files.filter(
            |file: NoteFileView| prefix.len() <= file.path.len() && file.path.take(prefix.len() as int) == prefix,
        ).to_multiset(),
        None => row.to_multiset() == files.to_multiset(),
    }
    &&& forall|j: int, k: int|
        #![trigger row[j], row[k]]
        0 <= j < k < row.len() ==> if descending {
            may_precede(row[k], row[j], order)
        } else {
            may_precede(row[j], row[k], order)
        }
}

/// Filters that keep the same files keep them alike.
proof fn lemma_same_filter(
    files: Seq<NoteFileView>,
    left: spec_fn(NoteFileView) -> bool,
    right: spec_fn(NoteFileView) -> bool,
)
    requires
        forall|file: NoteFileView| #[trigger] left(file) == right(file),
    ensures
        files.filter(left) == files.filter(right),
    decreases files.len(),
{
    reveal(Seq::filter);
    if files.len() > 0 {
        lemma_same_filter(files.drop_last(), left, right);
    }
}

/// Files that were selected and sorted are in listing order.
proof fn lemma_listing_order(files: Seq<NoteFileView>, prefix: Option<Seq<char>>, order: FileOrder, descending: bool)
    ensures
        in_listing_order(
            listed_files(with_prefix(files, prefix), order, descending),
            files,
            prefix,
            order,
            descending,
        ),
{
    let row = listed_files(with_prefix(files, prefix), order, descending);
    law_listing_is_in_order(with_prefix(files, prefix), order, descending);
    if let Some(prefix) = prefix {
        let starts = |file: NoteFileView|
            prefix.len() <= file.path.len() && file.path.take(prefix.len() as int) == prefix;
        let is_prefix = |file: NoteFileView| prefix.is_prefix_of(file.path);
        assert forall|file: NoteFileView| #[trigger] starts(file) == is_prefix(file) by {
            if prefix.len() <= file.path.len() {
                assert(file.path.take(prefix.len() as int) =~= file.path.subrange(0, prefix.len() as int));
            }
        }
        lemma_same_filter(files, starts, is_prefix);
    }
    assert forall|j: int, k: int| #![trigger row[j], row[k]] 0 <= j < k < row.len() implies if descending {
        may_precede(row[k], row[j], order)
    } else {
        may_precede(row[j], row[k], order)
    } by {
        assert(!crate::note_helpers::listed_before(row[k], row[j], order, descending));
    }
}

/// How many values an answer takes: as many as fit in 8,000 bytes.
proof fn lemma_kept(base: JsonView, field: Seq<char>, values: Seq<JsonView>)
    ensures
        kept_count(base, field, values) <= values.len(),
        kept_count(base, field, values) < values.len() ==> json_size(
            filled(base, field, values.take(kept_count(base, field, values) as int + 1)),
        ) > 8_000,
    decreases values.len(),
{
    if values.len() > 0 {
        let shorter = values.drop_last();
        lemma_kept(base, field, shorter);
        let before = kept_count(base, field, shorter);
        if before == values.len() - 1 {
            assert(values.take(values.len() as int) =~= values);
        } else {
            assert(shorter.take(before as int + 1) =~= values.take(before as int + 1));
        }
    }
}

/// The names in the answers of the note tools differ.
proof fn lemma_note_names()
    ensures
        "status"@.len() == 6 && "status"@[0] == 's',
        "prefix"@.len() == 6 && "prefix"@[0] == 'p',
        "files"@.len() == 5 && "files"@[0] == 'f' && "files"@[2] == 'l',
        "truncated"@.len() == 9,
        "path"@.len() == 4 && "path"@[0] == 'p',
        "bytes"@.len() == 5 && "bytes"@[0] == 'b',
        "lines"@.len() == 5 && "lines"@[0] == 'l',
        "created_at"@.len() == 10 && "created_at"@[0] == 'c',
        "updated_at"@.len() == 10 && "updated_at"@[0] == 'u',
        "text"@.len() == 4 && "text"@[0] == 't',
        "start_line"@.len() == 10 && "start_line"@[2] == 'a',
        "stop_line"@.len() == 9 && "stop_line"@[0] == 's',
        "truncated"@[0] == 't',
        "line_count"@.len() == 10 && "line_count"@[0] == 'l',
        "start_line"@[0] == 's',
        "appended_bytes"@.len() == 14,
        "reason"@.len() == 6 && "reason"@[0] == 'r',
        "field"@.len() == 5 && "field"@[0] == 'f' && "field"@[2] == 'e',
        "max_bytes"@.len() == 9 && "max_bytes"@[0] == 'm',
{
    reveal_strlit("status");
    reveal_strlit("prefix");
    reveal_strlit("files");
    reveal_strlit("truncated");
    reveal_strlit("path");
    reveal_strlit("bytes");
    reveal_strlit("lines");
    reveal_strlit("created_at");
    reveal_strlit("updated_at");
    reveal_strlit("text");
    reveal_strlit("start_line");
    reveal_strlit("stop_line");
    reveal_strlit("line_count");
    reveal_strlit("appended_bytes");
    reveal_strlit("reason");
    reveal_strlit("field");
    reveal_strlit("max_bytes");
}

/// A list of files shows the first files of the scan with the prefix, in the order that is asked for: no
/// more than were asked for, and fewer only where one more would make the answer larger than 8,000 bytes.
/// It says that something was left out exactly where a file with the prefix is not shown or the scan was
/// cut.
pub proof fn law_file_list_shows_the_files(request: ListRequestView, scan: crate::note_storage::FileScan) -> (row: Seq<
    NoteFileView,
>)
    ensures
        ({
            let answer = list_answer(request, NoteListing::Found(scan));
            let shown = items_in(answer, "files"@);
            &&& in_listing_order(row, scan@.files, request.prefix, request.order, request.descending)
            &&& shown.len() <= row.len()
            &&& shown.len() <= request.maximum
            &&& forall|k: int| 0 <= k < shown.len() ==> tells_file(#[trigger] shown[k], row[k])
            &&& field_of(answer, "status"@) == Some(JsonView::Text("ok"@))
            &&& match request.prefix {
                Some(prefix) => field_of(answer, "prefix"@) == Some(JsonView::Text(prefix)),
                None => field_of(answer, "prefix"@) == Some(JsonView::Null),
            }
            &&& field_of(answer, "truncated"@) == Some(JsonView::Bool(scan@.truncated || shown.len() < row.len()))
            &&& shown.len() < row.len() && shown.len() < request.maximum ==> json_size(
                filled(
                    list_base(request.prefix, scan@.truncated),
                    "files"@,
                    file_values(row.take(shown.len() as int + 1)),
                ),
            ) > 8_000
        }),
{
    lemma_note_names();
    let row = listed_files(with_prefix(scan@.files, request.prefix), request.order, request.descending);
    lemma_listing_order(scan@.files, request.prefix, request.order, request.descending);
    let first = first_files(row, request.maximum);
    let values = file_values(first);
    let base = list_base(request.prefix, scan@.truncated);
    lemma_kept(base, "files"@, values);
    let count = kept_count(base, "files"@, values);
    let answer = list_answer(request, NoteListing::Found(scan));
    let shown = items_in(answer, "files"@);
    assert(shown == values.take(count as int));
    assert forall|k: int| 0 <= k < shown.len() implies tells_file(#[trigger] shown[k], row[k]) by {
        assert(shown[k] == values[k]);
    }
    if shown.len() < row.len() && shown.len() < request.maximum {
        assert(values.take(count as int + 1) =~= file_values(row.take(count as int + 1)));
    }
    row
}

/// Without a directory of notes the list is empty and whole; a directory that is unsafe or cannot be read
/// is said to be.
pub proof fn law_file_list_without_files(request: ListRequestView)
    ensures
        ({
            let answer = list_answer(request, NoteListing::Missing);
            &&& field_of(answer, "status"@) == Some(JsonView::Text("ok"@))
            &&& field_of(answer, "files"@) == Some(JsonView::Array(Seq::empty()))
            &&& field_of(answer, "truncated"@) == Some(JsonView::Bool(false))
        }),
        text_field(list_answer(request, NoteListing::Unsafe), "status"@) == Some("unavailable"@),
        text_field(list_answer(request, NoteListing::Unsafe), "reason"@) == Some("unsafe_path"@),
        text_field(list_answer(request, NoteListing::Failed), "status"@) == Some("unavailable"@),
        text_field(list_answer(request, NoteListing::Failed), "reason"@) == Some("io_error"@),
{
    lemma_note_names();
}

/// A search reads the oldest or, where that is asked for, the latest notes with the prefix first, and all of
/// them up to the limit on files.
pub proof fn law_search_reads_the_files(request: SearchRequestView, scan: crate::note_storage::FileScan) -> (row: Seq<
    NoteFileView,
>)
    requires
        scan@.files.len() <= usize::MAX,
    ensures
        in_listing_order(row, scan@.files, request.prefix, FileOrder::CreatedAt, request.recent_first),
        targets_of(request, NoteListing::Found(scan)) matches Ok(targets) && {
            &&& targets.files == row.take(
                if row.len() < request.max_files {
                    row.len() as int
                } else {
                    request.max_files as int
                },
            )
            &&& targets.file_count == row.len()
            &&& targets.scan_truncated == scan@.truncated
        },
{
    let row = listed_files(
        with_prefix(scan@.files, request.prefix),
        FileOrder::CreatedAt,
        request.recent_first,
    );
    lemma_listing_order(scan@.files, request.prefix, FileOrder::CreatedAt, request.recent_first);
    law_listing_is_in_order(with_prefix(scan@.files, request.prefix), FileOrder::CreatedAt, request.recent_first);
    if let Some(prefix) = request.prefix {
        scan@.files.lemma_filter_len(|file: NoteFileView| prefix.is_prefix_of(file.path));
    }
    assert(row.take(row.len() as int) =~= row);
    row
}

/// A search without a directory of notes finds nothing and leaves nothing out; where the directory is
/// unsafe or cannot be read, that is the answer.
pub proof fn law_search_without_files(request: SearchRequestView)
    ensures
        targets_of(request, NoteListing::Missing) matches Err(answer) && {
            &&& text_field(answer, "status"@) == Some("ok"@)
            &&& field_of(answer, "matches"@) == Some(JsonView::Array(Seq::empty()))
            &&& field_of(answer, "files_scanned"@) == Some(JsonView::Number(NumberView::Unsigned(0)))
            &&& field_of(answer, "truncated"@) == Some(JsonView::Bool(false))
        },
        targets_of(request, NoteListing::Unsafe) matches Err(answer) && text_field(answer, "reason"@) == Some(
            "unsafe_path"@,
        ),
        targets_of(request, NoteListing::Failed) matches Err(answer) && text_field(answer, "reason"@) == Some(
            "io_error"@,
        ),
{
    lemma_note_names();
    reveal_strlit("matches");
    reveal_strlit("files_scanned");
    assert("matches"@.len() == 7 && "files_scanned"@.len() == 13);
}

/// The line that an argument names: the default where it is absent or null, the line with that number
/// counted from one, or counted from the end where it is negative, the last line being -1. Every line of the
/// note and no other can be named.
pub open spec fn names_line(arguments: JsonView, field: Seq<char>, default: int, count: int, line: int) -> bool {
    match field_of(arguments, field) {
        None => line == default,
        Some(JsonView::Null) => line == default,
        Some(JsonView::Number(NumberView::Unsigned(number))) => line == number && 1 <= line <= count,
        Some(JsonView::Number(NumberView::Negative(number))) => line == count + 1 + number && 1 <= line <= count,
        _ => false,
    }
}

/// An argument names a line of a note.
pub open spec fn can_name_line(arguments: JsonView, field: Seq<char>, count: int) -> bool {
    match field_of(arguments, field) {
        None => true,
        Some(JsonView::Null) => true,
        Some(JsonView::Number(NumberView::Unsigned(number))) => 1 <= number <= count && number <= i64::MAX,
        Some(JsonView::Number(NumberView::Negative(number))) => number < 0 && 1 <= count + 1 + number,
        _ => false,
    }
}

/// The first and the last line that a read asks for are those that its arguments name, from the first to
/// the last of the note where they name none.
pub proof fn law_read_range_is_named(arguments: JsonView, count: usize)
    requires
        count > 0,
        field_of(arguments, "start_line"@) matches Some(JsonView::Number(NumberView::Negative(number))) ==> number < 0,
        field_of(arguments, "stop_line"@) matches Some(JsonView::Number(NumberView::Negative(number))) ==> number < 0,
    ensures
        match lines_argument(arguments, count) {
            Ok((start, stop)) => {
                &&& names_line(arguments, "start_line"@, 1, count as int, start as int)
                &&& names_line(arguments, "stop_line"@, count as int, count as int, stop as int)
                &&& 1 <= start <= stop <= count
            },
            Err(answer) => {
                &&& text_field(answer, "status"@) == Some("invalid_argument"@)
                &&& can_name_line(arguments, "start_line"@, count as int) && can_name_line(
                    arguments,
                    "stop_line"@,
                    count as int,
                ) ==> forall|start: int, stop: int|
                    #[trigger] names_line(arguments, "start_line"@, 1, count as int, start) && #[trigger] names_line(
                        arguments,
                        "stop_line"@,
                        count as int,
                        count as int,
                        stop,
                    ) ==> start > stop
            },
        },
{
    lemma_note_names();
}

/// Reading a note shows its lines from the first to the last that was asked for, with line feeds between
/// them, as they stand in the note; where they do not fit, a beginning of them that is said to be cut. The
/// answer gives the path, the range, and the number of lines and bytes of the whole note.
pub proof fn law_read_shows_the_lines(arguments: JsonView, path: Seq<char>, text: Seq<char>, start: usize, stop: usize)
    requires
        0 < lines_of(text).len() <= usize::MAX,
        lines_argument(arguments, lines_of(text).len() as usize) == Ok::<_, JsonView>((start, stop)),
    ensures
        ({
            let answer = read_file_answer(arguments, path, Ok(text));
            let asked = joined(lines_of(text).subrange(start - 1, stop as int), "\n"@);
            &&& text_field(answer, "status"@) == Some("ok"@)
            &&& text_field(answer, "path"@) == Some(path)
            &&& field_of(answer, "start_line"@) == Some(JsonView::Number(NumberView::Unsigned(start as u64)))
            &&& field_of(answer, "stop_line"@) == Some(JsonView::Number(NumberView::Unsigned(stop as u64)))
            &&& field_of(answer, "line_count"@) == Some(
                JsonView::Number(NumberView::Unsigned(lines_of(text).len() as u64)),
            )
            &&& field_of(answer, "bytes"@) == Some(JsonView::Number(NumberView::Unsigned(utf8_len(text) as u64)))
            &&& match (text_field(answer, "text"@), field_of(answer, "truncated"@)) {
                (Some(shown), Some(JsonView::Bool(cut))) => {
                    &&& !cut ==> shown == asked
                    &&& cut ==> {
                        let whole = crate::notes::lines_view(path, text, asked, start, stop);
                        &&& shown.len() <= asked.len()
                        &&& shown == asked.take(shown.len() as int)
                        &&& json_size(whole) > 8_000
                        &&& shown.len() < asked.len() ==> json_size(
                            with_field(whole, "text"@, JsonView::Text(asked.take(shown.len() as int + 1))),
                        ) > 8_000
                    }
                },
                _ => false,
            }
        }),
{
    lemma_note_names();
    let asked = joined(lines_of(text).subrange(start - 1, stop as int), "\n"@);
    let whole = crate::notes::lines_view(path, text, asked, start, stop);
    assert(text_field(whole, "text"@) == Some(asked));
    lemma_fitting(whole, "text"@, asked, asked.len());
    let count = fitting_count(whole, "text"@, asked, asked.len());
    if count < asked.len() {
        law_fitted_text_is_longest(whole, "text"@, asked, count as int + 1);
    }
}

/// No more characters are taken than there are.
proof fn lemma_fitting(value: JsonView, field: Seq<char>, text: Seq<char>, count: nat)
    ensures
        fitting_count(value, field, text, count) <= count,
    decreases count,
{
    if count > 0 {
        lemma_fitting(value, field, text, (count - 1) as nat);
    }
}

/// An empty note is shown as such, whatever lines are asked for; a note that cannot be used is named with
/// the reason.
pub proof fn law_read_without_lines(arguments: JsonView, path: Seq<char>, error: NoteError)
    ensures
        text_field(read_file_answer(arguments, path, Err(error)), "status"@) == Some("unavailable"@),
        text_field(read_file_answer(arguments, path, Err(error)), "path"@) == Some(path),
        crate::note_search_laws::tells_unread(read_file_answer(arguments, path, Err(error)), path, error),
        ({
            let answer = read_file_answer(arguments, path, Ok(Seq::empty()));
            &&& text_field(answer, "path"@) == Some(path)
            &&& text_field(answer, "text"@) matches Some(shown) && shown.len() == 0
            &&& field_of(answer, "line_count"@) == Some(JsonView::Number(NumberView::Unsigned(0)))
            &&& field_of(answer, "bytes"@) == Some(JsonView::Number(NumberView::Unsigned(0)))
        }),
{
    lemma_note_names();
    let nothing = Seq::<char>::empty();
    crate::text::law_lines(nothing, nothing);
    crate::text::lemma_utf8_len_bounds(nothing);
    let whole = crate::notes::lines_view(path, nothing, nothing, 0, 0);
    assert(text_field(whole, "text"@) == Some(nothing));
    lemma_fitting(whole, "text"@, nothing, 0);
}

/// A note is read by the path that was asked for, a text, as it was checked.
pub proof fn law_read_asks_for_the_path(arguments: JsonView, path: Seq<char>)
    ensures
        field_of(arguments, "path"@) matches Some(JsonView::Text(_)) ==> read_note_request(arguments, Ok(path))
            == Ok::<_, JsonView>(path),
        !(field_of(arguments, "path"@) matches Some(JsonView::Text(_))) ==> read_note_request(arguments, Ok(path)) is Err,
{
}

/// What is written is the text that was given, under the path that was checked, up to 1,000,000 bytes. A
/// longer one is refused.
pub proof fn law_write_takes_the_text(arguments: JsonView, path: Seq<char>)
    ensures
        match (field_of(arguments, "path"@), field_of(arguments, "text"@)) {
            (Some(JsonView::Text(_)), Some(JsonView::Text(text))) => match write_request(arguments, Ok(path)) {
                Ok(request) => request.path == path && request.text == text && utf8_len(text) <= 1_000_000,
                Err(answer) => {
                    &&& utf8_len(text) > 1_000_000
                    &&& text_field(answer, "status"@) == Some("invalid_argument"@)
                    &&& text_field(answer, "field"@) == Some("text"@)
                    &&& field_of(answer, "max_bytes"@) == Some(JsonView::Number(NumberView::Unsigned(1_000_000)))
                },
            },
            _ => write_request(arguments, Ok(path)) is Err,
        },
        forall|refusal: JsonView| #[trigger] write_request(arguments, Err(refusal)) is Err,
{
    lemma_note_names();
}

/// A write that succeeded tells the path and the size of the text; one that failed tells why.
pub proof fn law_write_is_confirmed(request: WriteRequestView, error: NoteError)
    ensures
        ({
            let answer = write_answer(request, Ok(()));
            &&& text_field(answer, "status"@) == Some("ok"@)
            &&& text_field(answer, "path"@) == Some(request.path)
            &&& field_of(answer, "bytes"@) == Some(JsonView::Number(NumberView::Unsigned(utf8_len(request.text) as u64)))
        }),
        text_field(write_answer(request, Err(error)), "status"@) == Some("unavailable"@),
        crate::note_search_laws::tells_unread(write_answer(request, Err(error)), request.path, error),
{
    lemma_note_names();
}

/// Appending keeps what the note held, puts the new text directly behind it, and starts a note that is not
/// there; it is refused exactly where the note would be larger than 1,000,000 bytes or cannot be read.
pub proof fn law_append_keeps_the_note(request: WriteRequestView, existing: Result<Option<Seq<char>>, NoteError>)
    ensures
        match existing {
            Ok(found) => {
                let before = match found {
                    Some(text) => text,
                    None => Seq::empty(),
                };
                match appended(request, existing) {
                    Ok(combined) => {
                        &&& combined.len() == before.len() + request.text.len()
                        &&& combined.take(before.len() as int) == before
                        &&& combined.skip(before.len() as int) == request.text
                        &&& utf8_len(combined) <= 1_000_000
                    },
                    Err(answer) => {
                        &&& utf8_len(before + request.text) > 1_000_000
                        &&& text_field(answer, "status"@) == Some("invalid_argument"@)
                        &&& text_field(answer, "path"@) == Some(request.path)
                    },
                }
            },
            Err(error) => appended(request, existing) matches Err(answer) && crate::note_search_laws::tells_unread(
                answer,
                request.path,
                error,
            ),
        },
{
    lemma_note_names();
    if let Ok(found) = existing {
        let before = match found {
            Some(text) => text,
            None => Seq::empty(),
        };
        lemma_utf8_len_concat(before, request.text);
        assert((before + request.text).take(before.len() as int) =~= before);
        assert((before + request.text).skip(before.len() as int) =~= request.text);
    }
}

/// An append that succeeded tells the path, the size of the whole note and of what was added; one that
/// failed tells why.
pub proof fn law_append_is_confirmed(request: WriteRequestView, combined: Seq<char>, error: NoteError)
    ensures
        ({
            let answer = append_answer(request, combined, Ok(()));
            &&& text_field(answer, "status"@) == Some("ok"@)
            &&& text_field(answer, "path"@) == Some(request.path)
            &&& field_of(answer, "bytes"@) == Some(JsonView::Number(NumberView::Unsigned(utf8_len(combined) as u64)))
            &&& field_of(answer, "appended_bytes"@) == Some(
                JsonView::Number(NumberView::Unsigned(utf8_len(request.text) as u64)),
            )
        }),
        text_field(append_answer(request, combined, Err(error)), "status"@) == Some("unavailable"@),
        crate::note_search_laws::tells_unread(append_answer(request, combined, Err(error)), request.path, error),
{
    lemma_note_names();
}

/// A list is asked for as the arguments say: 100 files unless they say otherwise and never more, by name
/// and ascending unless they say otherwise.
pub proof fn law_list_request_reads_arguments(arguments: JsonView, prefix: Option<Seq<char>>)
    ensures
        list_request(arguments, Ok(prefix)) matches Ok(request) ==> {
            &&& request.prefix == prefix
            &&& reads_count(arguments, "max_results"@, 100, 100, request.maximum as int)
            &&& match request.order {
                FileOrder::Name => {
                    ||| text_field(arguments, "file_order_by"@) == Some("name"@)
                    ||| text_field(arguments, "file_order_by"@) is None
                },
                FileOrder::CreatedAt => text_field(arguments, "file_order_by"@) == Some("created_at"@),
                FileOrder::UpdatedAt => text_field(arguments, "file_order_by"@) == Some("updated_at"@),
            }
            &&& request.descending <==> text_field(arguments, "file_order"@) == Some("descending"@)
            &&& !request.descending ==> text_field(arguments, "file_order"@) is None || text_field(
                arguments,
                "file_order"@,
            ) == Some("ascending"@)
        },
        field_of(arguments, "max_results"@) is None && (text_field(arguments, "file_order_by"@) is None || text_field(
            arguments,
            "file_order_by"@,
        ) == Some("name"@) || text_field(arguments, "file_order_by"@) == Some("created_at"@) || text_field(
            arguments,
            "file_order_by"@,
        ) == Some("updated_at"@)) && (text_field(arguments, "file_order"@) is None || text_field(
            arguments,
            "file_order"@,
        ) == Some("ascending"@) || text_field(arguments, "file_order"@) == Some("descending"@)) ==> list_request(
            arguments,
            Ok(prefix),
        ) is Ok,
{
    reveal_strlit("ascending");
    reveal_strlit("descending");
    reveal_strlit("created_at");
    reveal_strlit("updated_at");
    reveal_strlit("name");
    assert("ascending"@.len() == 9 && "descending"@.len() == 10 && "name"@.len() == 4);
    assert("created_at"@[0] == 'c' && "updated_at"@[0] == 'u' && "created_at"@.len() == 10 && "updated_at"@.len()
        == 10);
}

/// A search is asked for as the arguments say: for a text of 1 to 1,000 characters, in 20 files and with 10
/// matches of each unless they say otherwise and never more, the oldest first unless they say otherwise.
pub proof fn law_note_search_request_reads_arguments(arguments: JsonView, prefix: Option<Seq<char>>)
    ensures
        note_search_request(arguments, Ok(prefix)) matches Ok(request) ==> {
            &&& field_of(arguments, "query"@) == Some(JsonView::Text(request.query))
            &&& 1 <= request.query.len() <= 1_000
            &&& request.prefix == prefix
            &&& reads_count(arguments, "max_files"@, 20, 20, request.max_files as int)
            &&& reads_count(arguments, "max_matches_per_file"@, 10, 10, request.max_matches as int)
            &&& request.recent_first <==> field_of(arguments, "recent_file_first"@) == Some(JsonView::Bool(true))
        },
        (field_of(arguments, "query"@) matches Some(JsonView::Text(query)) && 1 <= query.len() <= 1_000) && field_of(
            arguments,
            "max_files"@,
        ) is None && field_of(arguments, "max_matches_per_file"@) is None ==> note_search_request(
            arguments,
            Ok(prefix),
        ) is Ok,
{
}

/// A note lies in the directory "notes" below that of its thread, and further down as its path says.
pub proof fn law_note_lies_at_its_path(thread_id: Seq<char>, path: Seq<char>)
    ensures
        note_location(thread_id, path).len() > 2,
        note_location(thread_id, path)[0] == thread_id,
        note_location(thread_id, path)[1] == "notes"@,
        joined(note_location(thread_id, path).skip(2), "/"@) == path,
{
    reveal_strlit("/");
    assert("/"@ =~= seq!['/']);
    crate::text::law_pieces_join(path, '/');
    assert(note_location(thread_id, path).skip(2) =~= pieces(path, '/'));
}

/// A path is taken as it was given: not empty, at most 1,024 bytes in at most 64 names, none of them empty,
/// "." or "..", with no backslash and no zero character. Every such path is taken, unless its second
/// character is a colon, on which platforms differ.
pub proof fn law_paths_are_taken_as_given(outcome: Result<Seq<char>, JsonView>, value: Seq<char>, field: Seq<char>)
    requires
        path_checked(outcome, value, field, false),
    ensures
        ({
            let names = pieces(value, '/');
            let safe = {
                &&& value.len() > 0
                &&& utf8_len(value) <= 1_024
                &&& names.len() <= 64
                &&& !value.contains('\0')
                &&& !value.contains('\\')
                &&& forall|i: int|
                    0 <= i < names.len() ==> (#[trigger] names[i]).len() > 0 && names[i] != "."@ && names[i] != ".."@
            };
            &&& outcome matches Ok(path) ==> path == value && safe
            &&& safe && !(value.len() >= 2 && value[1] == ':') ==> outcome is Ok
            &&& outcome matches Err(answer) ==> {
                &&& text_field(answer, "status"@) == Some("invalid_argument"@)
                &&& text_field(answer, "field"@) == Some(field)
            }
        }),
{
    lemma_note_names();
}

/// The lines that a hint gives of the first files: each file's path and size.
pub open spec fn file_lines(files: Seq<NoteFileView>, count: nat) -> Seq<char>
    decreases count,
{
    if count == 0 {
        Seq::empty()
    } else {
        file_lines(files, (count - 1) as nat) + ("- "@ + files[count - 1].path + " ("@ + decimal(
            files[count - 1].bytes as nat,
        ) + " bytes)\n"@)
    }
}

/// The lines of the files go on from where they are.
proof fn lemma_file_lines(head: Seq<char>, files: Seq<NoteFileView>, from: nat)
    requires
        from <= files.len(),
        utf8_len(head + file_lines(files, files.len())) <= 4_000,
    ensures
        with_file_lines(head + file_lines(files, from), files, from) == head + file_lines(files, files.len()),
    decreases files.len() - from,
{
    if from < files.len() {
        let text = head + file_lines(files, from);
        let longer = text + file_line(files[from as int]);
        assert(longer =~= head + file_lines(files, from + 1));
        lemma_lines_grow(head, files, from + 1, files.len());
        lemma_file_lines(head, files, from + 1);
    }
}

/// More files take no less room.
proof fn lemma_lines_grow(head: Seq<char>, files: Seq<NoteFileView>, fewer: nat, more: nat)
    requires
        fewer <= more,
    ensures
        utf8_len(head + file_lines(files, fewer)) <= utf8_len(head + file_lines(files, more)),
    decreases more - fewer,
{
    if fewer < more {
        let line = "- "@ + files[more - 1].path + " ("@ + decimal(files[more - 1].bytes as nat) + " bytes)\n"@;
        lemma_lines_grow(head, files, fewer, (more - 1) as nat);
        lemma_utf8_len_concat(head + file_lines(files, (more - 1) as nat), line);
        assert(head + file_lines(files, (more - 1) as nat) + line =~= head + file_lines(files, more));
    }
}

/// A beginning within a budget does not depend on what stands behind more than the budget.
proof fn lemma_same_beginning(text: Seq<char>, left: Seq<char>, right: Seq<char>, maximum: usize)
    requires
        maximum >= 12,
        utf8_len(text) > maximum,
    ensures
        bounded(text + left, maximum) == bounded(text + right, maximum),
{
    lemma_utf8_len_concat(text, left);
    lemma_utf8_len_concat(text, right);
    let here = law_bounded_text_is_the_longest(text, maximum);
    let one = law_bounded_text_is_the_longest(text + left, maximum);
    let other = law_bounded_text_is_the_longest(text + right, maximum);
    lemma_same_kept(text, left, here, one, (maximum - 12) as nat);
    lemma_same_kept(text, right, here, other, (maximum - 12) as nat);
}

/// The longest beginning of a longer text is that of the text.
proof fn lemma_same_kept(text: Seq<char>, behind: Seq<char>, kept: int, other: int, budget: nat)
    requires
        0 <= kept < text.len(),
        utf8_len(text.take(kept)) <= budget,
        utf8_len(text.take(kept + 1)) > budget,
        0 <= other < (text + behind).len(),
        utf8_len((text + behind).take(other)) <= budget,
        utf8_len((text + behind).take(other + 1)) > budget,
    ensures
        other == kept,
        (text + behind).take(other) == text.take(kept),
{
    let whole = text + behind;
    assert(whole.take(kept) =~= text.take(kept));
    assert(whole.take(kept + 1) =~= text.take(kept + 1));
    if other < kept {
        lemma_utf8_len_take(whole, other + 1, kept);
    }
    if kept < other {
        lemma_utf8_len_take(whole, kept + 1, other);
    }
}

/// The lines of the files go on until there is no more room.
proof fn lemma_file_lines_until(head: Seq<char>, files: Seq<NoteFileView>, from: nat) -> (rest: Seq<char>)
    requires
        from <= files.len(),
    ensures
        with_file_lines(head + file_lines(files, from), files, from) + rest == head + file_lines(files, files.len()),
        rest.len() > 0 ==> utf8_len(with_file_lines(head + file_lines(files, from), files, from)) > 4_000,
    decreases files.len() - from,
{
    let text = head + file_lines(files, from);
    if from >= files.len() {
        assert(text + Seq::<char>::empty() =~= text);
        Seq::empty()
    } else {
        let longer = text + file_line(files[from as int]);
        assert(longer =~= head + file_lines(files, from + 1));
        if utf8_len(longer) > 4_000 {
            lemma_lines_continue(head, files, from + 1, files.len())
        } else {
            lemma_file_lines_until(head, files, from + 1)
        }
    }
}

/// More files only add lines.
proof fn lemma_lines_continue(head: Seq<char>, files: Seq<NoteFileView>, fewer: nat, more: nat) -> (rest: Seq<char>)
    requires
        fewer <= more,
    ensures
        head + file_lines(files, fewer) + rest == head + file_lines(files, more),
    decreases more - fewer,
{
    if fewer == more {
        assert(head + file_lines(files, fewer) + Seq::<char>::empty() =~= head + file_lines(files, more));
        Seq::empty()
    } else {
        let before = lemma_lines_continue(head, files, fewer, (more - 1) as nat);
        let line = "- "@ + files[more - 1].path + " ("@ + decimal(files[more - 1].bytes as nat) + " bytes)\n"@;
        assert(head + file_lines(files, fewer) + (before + line) =~= head + file_lines(files, (more - 1) as nat) + line);
        assert(head + file_lines(files, (more - 1) as nat) + line =~= head + file_lines(files, more));
        before + line
    }
}

/// What is shown of a hint: all of it where it has at most 4,000 bytes, otherwise its longest beginning that
/// leaves room for the marker behind it.
pub open spec fn shows_hint(shown: Seq<char>, whole: Seq<char>) -> bool {
    if utf8_len(whole) <= 4_000 {
        shown == whole
    } else {
        exists|kept: int|
            #![trigger whole.take(kept)]
            0 <= kept < whole.len() && shown == whole.take(kept) + "\n[truncated]"@ && utf8_len(whole.take(kept))
                <= 3_988 && utf8_len(whole.take(kept + 1)) > 3_988
    }
}

/// The hint of a thread gives the index note, whole where it has at most 2,000 bytes, and then the five files
/// that were changed last, the latest first, each with its path and its size; all of that where it has at most
/// 4,000 bytes, otherwise as much of it as leaves room for the marker of a cut text.
pub proof fn law_hint_shows_index_and_latest_files(index: Result<Seq<char>, NoteError>, scan: FileScanView) -> (row: Seq<
    NoteFileView,
>)
    ensures
        in_listing_order(row, scan.files, None, FileOrder::UpdatedAt, true),
        ({
            let about_index = match index {
                Ok(text) => if utf8_len(text) <= 2_000 {
                    text
                } else {
                    bounded(text, 2_000).0 + "\n[INDEX.md excerpt truncated]"@
                },
                Err(NoteError::NotFound) => "(INDEX.md is not present)"@,
                Err(NoteError::UnsafePath) => "(INDEX.md unavailable: "@ + "unsafe_path"@ + ")"@,
                Err(NoteError::NotAFile) => "(INDEX.md unavailable: "@ + "not_a_file"@ + ")"@,
                Err(NoteError::TooLarge) => "(INDEX.md unavailable: "@ + "too_large"@ + ")"@,
                Err(NoteError::NonUtf8) => "(INDEX.md unavailable: "@ + "non_utf8"@ + ")"@,
                Err(NoteError::Io) => "(INDEX.md unavailable: "@ + "io_error"@ + ")"@,
            };
            let head = "Local notes progress:\n"@ + about_index + "\nFiles:\n"@;
            let listed = head + file_lines(
                row,
                if row.len() < 5 {
                    row.len()
                } else {
                    5
                },
            );
            let whole = if scan.truncated {
                listed + "[file inventory truncated]\n"@
            } else {
                listed
            };
            match text_field(hint_view(index, scan), "text"@) {
                Some(shown) => shows_hint(shown, whole),
                None => false,
            }
        }),
{
    let row = listed_files(scan.files, FileOrder::UpdatedAt, true);
    lemma_listing_order(scan.files, None, FileOrder::UpdatedAt, true);
    let first = first_files(row, 5);
    let head = "Local notes progress:\n"@ + index_part(index) + "\nFiles:\n"@;
    let listed = head + file_lines(first, first.len());
    lemma_same_lines(row, first, first.len());
    if scan.truncated {
        lemma_utf8_len_concat(listed, "[file inventory truncated]\n"@);
    }
    let whole = if scan.truncated {
        listed + "[file inventory truncated]\n"@
    } else {
        listed
    };
    if utf8_len(whole) <= 4_000 {
        assert(head + file_lines(first, 0) =~= head);
        lemma_file_lines(head, first, 0);
        assert(whole_hint(index, scan) == whole);
    } else {
        assert(head + file_lines(first, 0) =~= head);
        let rest = lemma_file_lines_until(head, first, 0);
        let found = with_file_lines(head, first, 0);
        let tail = if scan.truncated {
            "[file inventory truncated]\n"@
        } else {
            Seq::empty()
        };
        assert(whole_hint(index, scan) =~= found + tail);
        assert(whole =~= listed + tail);
        if rest.len() > 0 {
            assert(whole =~= found + (rest + tail));
            lemma_same_beginning(found, tail, rest + tail, 4_000);
        } else {
            assert(found =~= listed);
        }
        let kept = law_bounded_text_is_the_longest(whole, 4_000);
        assert(bounded(whole_hint(index, scan), 4_000).0 == whole.take(kept) + "\n[truncated]"@);
    }
    assert(shows_hint(bounded(whole_hint(index, scan), 4_000).0, whole));
    row
}

/// The first files have the same lines wherever the row ends.
proof fn lemma_same_lines(row: Seq<NoteFileView>, first: Seq<NoteFileView>, count: nat)
    requires
        count <= first.len() <= row.len(),
        forall|i: int| 0 <= i < first.len() ==> #[trigger] first[i] == row[i],
    ensures
        file_lines(row, count) == file_lines(first, count),
    decreases count,
{
    if count > 0 {
        lemma_same_lines(row, first, (count - 1) as nat);
        assert(first[count - 1] == row[count - 1]);
    }
}

} // verus!
