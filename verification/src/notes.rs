//! Thread-scoped notes: what the note tools ask of the file system, and what they answer.

use vstd::prelude::*;
use vstd::string::*;
use vstd::utf8::*;

use crate::history::filled;
use crate::history::values_view;
use crate::json::field_of;
use crate::json::fields_in;
use crate::json::flag_field;
use crate::json::items_in;
use crate::json::items_view;
use crate::json::lemma_decimal_size;
use crate::json::lemma_items_view;
use crate::json::lemma_plain_size;
use crate::json::lemma_quoted_size_bound;
use crate::json::lemma_size_with_field;
use crate::json::lemma_size_with_field_bound;
use crate::json::quoted_size;
use crate::json::serialized_len;
use crate::json::text_field;
use crate::json::text_or_null;
use crate::json::unsigned_view;
use crate::json::with_field;
use crate::json::Json;
use crate::json::JsonView;
use crate::limits::bounded_count;
use crate::limits::bounded_usize;
use crate::limits::char_count;
use crate::limits::invalid_argument;
use crate::limits::invalid_argument_view;
use crate::limits::MAX_NOTE_BYTES;
use crate::limits::MAX_NOTE_FILES;
use crate::limits::MAX_NOTE_MATCHES_PER_FILE;
use crate::limits::MAX_NOTE_MATCH_TEXT_CHARS;
use crate::limits::MAX_NOTE_PATH_BYTES;
use crate::limits::MAX_NOTE_QUERY_CHARS;
use crate::limits::MAX_NOTE_RESULT_BYTES;
use crate::limits::MAX_NOTE_SEARCH_FILES;
use crate::limits::MAX_THREAD_HINT_BYTES;
use crate::limits::MAX_THREAD_HINT_FILES;
use crate::note_helpers::bound_array_field;
use crate::note_helpers::bounded;
use crate::note_helpers::bounded_array;
use crate::note_helpers::bounded_text;
use crate::note_helpers::file_order_of;
use crate::note_helpers::file_value;
use crate::note_helpers::file_value_view;
use crate::note_helpers::fit_text_field;
use crate::note_helpers::fitted;
use crate::note_helpers::law_bounded_array_fits;
use crate::note_helpers::law_bounded_text_keeps_to_its_bound;
use crate::note_helpers::law_fitted_answer_fits;
use crate::note_helpers::line_range;
use crate::note_helpers::lines_argument;
use crate::note_helpers::listed_files;
use crate::note_helpers::note_error;
use crate::note_helpers::note_error_view;
use crate::note_helpers::note_fits;
use crate::note_helpers::note_too_large;
use crate::note_helpers::note_too_large_view;
use crate::note_helpers::optional_path;
use crate::note_helpers::optional_path_checked;
use crate::note_helpers::optional_path_outcome;
use crate::note_helpers::ordinary_name;
use crate::note_helpers::parse_file_order;
use crate::note_helpers::path_checked;
use crate::note_helpers::path_outcome;
use crate::note_helpers::path_refusal;
use crate::note_helpers::scan_error;
use crate::note_helpers::scan_error_view;
use crate::note_helpers::sort_files;
use crate::note_helpers::validated_relative_path;
use crate::note_helpers::with_beginning;
use crate::note_helpers::FileOrder;
use crate::note_storage::files_view;
use crate::note_storage::needed_note;
use crate::note_storage::note_error_of;
use crate::note_storage::note_presence;
use crate::note_storage::present_outcome;
use crate::note_storage::read_note_if_present;
use crate::note_storage::reason_of;
use crate::note_storage::text_outcome;
use crate::note_storage::FileScan;
use crate::note_storage::FileScanView;
use crate::note_storage::IoFailure;
use crate::note_storage::NoteError;
use crate::note_storage::NoteFile;
use crate::note_storage::NoteFileView;
use crate::note_storage::NoteRead;
use crate::text::byte_len;
use crate::text::contains;
use crate::text::decimal;
use crate::text::decimal_text;
use crate::text::join;
use crate::text::joined;
use crate::text::law_lines_join;
use crate::text::law_pieces_join;
use crate::text::lemma_line_end;
use crate::text::lemma_utf8_len_bounds;
use crate::text::lemma_utf8_len_concat;
use crate::text::line_end;
use crate::text::lines;
use crate::text::lines_of;
use crate::text::occurs;
use crate::text::opt_view;
use crate::text::pieces;
use crate::text::plain_lines;
use crate::text::same_text;
use crate::text::split;
use crate::text::starts_with;
use crate::text::texts_view;
use crate::text::utf8_len;

verus! {

/// The notes of one thread.
#[derive(Debug)]
pub struct LocalNoteStore {
    pub thread_id: String,
}

/// The directories from the storage root down to the notes of a thread.
pub open spec fn notes_directory(thread_id: Seq<char>) -> Seq<Seq<char>> {
    seq![thread_id, "notes"@]
}

/// The names from the storage root down to a note.
pub open spec fn note_location(thread_id: Seq<char>, path: Seq<char>) -> Seq<Seq<char>> {
    notes_directory(thread_id) + pieces(path, '/')
}

impl LocalNoteStore {
    /// The notes of the given thread.
    pub fn new(thread_id: &str) -> (store: LocalNoteStore)
        ensures
            store.thread_id@ == thread_id@,
    {
        LocalNoteStore { thread_id: thread_id.to_owned() }
    }

    /// The directories from the storage root down to the notes.
    pub fn directory(&self) -> (names: Vec<String>)
        ensures
            texts_view(names@) == notes_directory(self.thread_id@),
    {
        let mut names: Vec<String> = Vec::new();
        names.push(self.thread_id.clone());
        names.push("notes".to_owned());
        assert(texts_view(names@) =~= notes_directory(self.thread_id@));
        names
    }

    /// The names from the storage root down to a note.
    pub fn location(&self, path: &str) -> (names: Vec<String>)
        ensures
            texts_view(names@) == note_location(self.thread_id@, path@),
    {
        let mut names = self.directory();
        let mut rest = split(path, '/');
        let ghost before = names@;
        let ghost more = rest@;
        names.append(&mut rest);
        assert(texts_view(names@) =~= texts_view(before) + texts_view(more));
        names
    }

    /// The text of a note.
    pub fn read_note(&self, read: NoteRead) -> (outcome: Result<String, NoteError>)
        ensures
            text_outcome(outcome) == needed_note(read),
    {
        match read_note_if_present(read) {
            Ok(Some(text)) => Ok(text),
            Ok(None) => Err(NoteError::NotFound),
            Err(error) => Err(error),
        }
    }
}

/// Which files are to be listed, and how.
#[derive(Debug)]
pub struct ListRequest {
    pub prefix: Option<String>,
    pub maximum: usize,
    pub order: FileOrder,
    pub descending: bool,
}

/// What a `ListRequest` holds.
#[verifier::ext_equal]
pub struct ListRequestView {
    pub prefix: Option<Seq<char>>,
    pub maximum: usize,
    pub order: FileOrder,
    pub descending: bool,
}

impl View for ListRequest {
    type V = ListRequestView;

    open spec fn view(&self) -> ListRequestView {
        ListRequestView {
            prefix: opt_view(self.prefix),
            maximum: self.maximum,
            order: self.order,
            descending: self.descending,
        }
    }
}

/// What an outcome with a request holds.
pub open spec fn list_outcome(outcome: Result<ListRequest, Json>) -> Result<ListRequestView, JsonView> {
    match outcome {
        Ok(request) => Ok(request@),
        Err(error) => Err(error@),
    }
}

/// Whether the files are to be listed the last first.
pub open spec fn descending_of(arguments: JsonView) -> Result<bool, JsonView> {
    match text_field(arguments, "file_order"@) {
        None => Ok(false),
        Some(text) => if text == "ascending"@ {
            Ok(false)
        } else if text == "descending"@ {
            Ok(true)
        } else {
            Err(invalid_argument_view("file_order"@, "must be ascending or descending"@))
        },
    }
}

/// The files that the arguments ask for, given what came of checking their prefix.
pub open spec fn list_request(
    arguments: JsonView,
    prefix: Result<Option<Seq<char>>, JsonView>,
) -> Result<ListRequestView, JsonView> {
    match prefix {
        Err(error) => Err(error),
        Ok(prefix) => match bounded_count(arguments, "max_results"@, MAX_NOTE_FILES, MAX_NOTE_FILES) {
            Err(error) => Err(error),
            Ok(maximum) => match file_order_of(arguments) {
                Err(error) => Err(error),
                Ok(order) => match descending_of(arguments) {
                    Err(error) => Err(error),
                    Ok(descending) => Ok(ListRequestView { prefix, maximum, order, descending }),
                },
            },
        },
    }
}

/// The files that the arguments ask for, given what came of checking their prefix.
pub fn plan_list_with(arguments: &Json, prefix: Result<Option<String>, Json>) -> (outcome: Result<
    ListRequest,
    Json,
>)
    ensures
        list_outcome(outcome) == list_request(arguments@, optional_path_outcome(prefix)),
{
    let prefix = match prefix {
        Ok(prefix) => prefix,
        Err(error) => {
            return Err(error);
        },
    };
    let maximum: usize = match bounded_usize(arguments, "max_results", MAX_NOTE_FILES, MAX_NOTE_FILES) {
        Ok(maximum) => maximum,
        Err(error) => {
            return Err(error);
        },
    };
    let order = match parse_file_order(arguments) {
        Ok(order) => order,
        Err(error) => {
            return Err(error);
        },
    };
    let descending: bool = match arguments.text_at("file_order") {
        None => false,
        Some(text) => {
            if same_text(text, "ascending") {
                false
            } else if same_text(text, "descending") {
                true
            } else {
                return Err(invalid_argument("file_order", "must be ascending or descending"));
            }
        },
    };
    Ok(ListRequest { prefix, maximum, order, descending })
}

/// The files that the arguments ask for.
pub fn plan_list(arguments: &Json) -> (outcome: Result<ListRequest, Json>)
    ensures
        exists|prefix: Result<Option<Seq<char>>, JsonView>|
            #[trigger] optional_path_checked(prefix, arguments@, "prefix"@, true) && list_outcome(outcome)
                == list_request(arguments@, prefix),
{
    let prefix = optional_path(arguments, "prefix", true);
    assert(optional_path_checked(optional_path_outcome(prefix), arguments@, "prefix"@, true));
    plan_list_with(arguments, prefix)
}

/// What came of looking for the notes of a thread.
#[derive(Debug)]
pub enum NoteListing {
    /// The directory of the notes is not safe.
    Unsafe,
    /// There are no notes.
    Missing,
    /// The directory could not be read.
    Failed,
    Found(FileScan),
}

/// The files that start with the prefix, where there is one.
pub open spec fn with_prefix(files: Seq<NoteFileView>, prefix: Option<Seq<char>>) -> Seq<NoteFileView> {
    match prefix {
        Some(prefix) => files.filter(|file: NoteFileView| prefix.is_prefix_of(file.path)),
        None => files,
    }
}

/// Keeps the files that start with the prefix, where there is one.
fn keep_prefix(files: Vec<NoteFile>, prefix: &Option<String>) -> (kept: Vec<NoteFile>)
    ensures
        files_view(kept@) == with_prefix(files_view(files@), opt_view(*prefix)),
{
    let prefix = match prefix {
        Some(prefix) => prefix,
        None => {
            return files;
        },
    };
    let ghost all = files_view(files@);
    let ghost pred = |file: NoteFileView| prefix@.is_prefix_of(file.path);
    let mut rest = files;
    let mut kept: Vec<NoteFile> = Vec::new();
    let ghost mut done: int = 0;
    proof {
        reveal(Seq::filter);
        assert(all.skip(0) =~= all);
        assert(all.take(0) =~= Seq::<NoteFileView>::empty());
        assert(files_view(kept@) =~= all.take(0).filter(pred));
    }
    while rest.len() > 0
        invariant
            0 <= done <= all.len(),
            pred == (|file: NoteFileView| prefix@.is_prefix_of(file.path)),
            files_view(rest@) == all.skip(done),
            files_view(kept@) == all.take(done).filter(pred),
        decreases rest@.len(),
    {
        let ghost before = rest@;
        let ghost had = kept@;
        let file = rest.remove(0);
        proof {
            assert(files_view(before).len() == before.len());
            assert(all.skip(done)[0] == all[done]);
            assert(files_view(before)[0] == before[0]@);
            assert(files_view(rest@) =~= files_view(before).skip(1));
            assert(files_view(rest@) =~= all.skip(done + 1));
            assert(all.take(done + 1) =~= all.take(done).push(file@));
            all.take(done).lemma_filter_push(file@, pred);
        }
        if starts_with(file.path.as_str(), prefix.as_str()) {
            kept.push(file);
            assert(files_view(kept@) =~= files_view(had).push(file@));
        }
        proof {
            done = done + 1;
        }
    }
    assert(all.take(done) =~= all) by {
        assert(all.skip(done).len() == 0);
    }
    kept
}

/// How many of the values an answer takes, from the first on, before one is too much.
pub open spec fn kept_count(base: JsonView, field: Seq<char>, values: Seq<JsonView>) -> nat
    decreases values.len(),
{
    if values.len() == 0 {
        0
    } else {
        let before = kept_count(base, field, values.drop_last());
        if before == values.len() - 1 && note_fits(filled(base, field, values)) {
            values.len()
        } else {
            before
        }
    }
}

/// The values of the files on a list.
pub open spec fn file_values(files: Seq<NoteFileView>) -> Seq<JsonView> {
    files.map_values(|file: NoteFileView| file_value_view(file))
}

/// A list before its files.
pub open spec fn list_base(prefix: Option<Seq<char>>, truncated: bool) -> JsonView {
    JsonView::Object(
        map![
            "status"@ => JsonView::Text("ok"@),
            "prefix"@ => text_or_null(prefix),
            "files"@ => JsonView::Array(Seq::empty()),
            "truncated"@ => JsonView::Bool(truncated),
        ],
    )
}

/// The first files of a row, at most `maximum`.
pub open spec fn first_files(files: Seq<NoteFileView>, maximum: usize) -> Seq<NoteFileView> {
    if files.len() <= maximum {
        files
    } else {
        files.take(maximum as int)
    }
}

/// The answer that lists files: as many as fit, from the first on.
pub open spec fn found_list(request: ListRequestView, scan: FileScanView) -> JsonView {
    let files = listed_files(with_prefix(scan.files, request.prefix), request.order, request.descending);
    let values = file_values(first_files(files, request.maximum));
    let base = list_base(request.prefix, scan.truncated);
    let count = kept_count(base, "files"@, values);
    with_field(
        filled(base, "files"@, values.take(count as int)),
        "truncated"@,
        JsonView::Bool(scan.truncated || count < values.len() || files.len() > request.maximum),
    )
}

/// The answer that lists files.
pub open spec fn list_answer(request: ListRequestView, listing: NoteListing) -> JsonView {
    match listing {
        NoteListing::Unsafe => scan_error_view("unsafe_path"@),
        NoteListing::Failed => scan_error_view("io_error"@),
        NoteListing::Missing => list_base(request.prefix, false),
        NoteListing::Found(scan) => found_list(request, scan@),
    }
}

/// A list before its files.
fn list_start(prefix: &Option<String>, truncated: bool) -> (value: Json)
    ensures
        value@ == list_base(opt_view(*prefix), truncated),
{
    let mut value = Json::object();
    value.set("status", Json::text("ok"));
    value.set("prefix", Json::optional_text(prefix));
    value.set("files", Json::array());
    value.set("truncated", Json::Bool(truncated));
    value
}

/// The names in a list differ.
proof fn lemma_list_names()
    ensures
        "files"@ != "truncated"@,
        "files"@ != "prefix"@,
        "files"@ != "status"@,
        "prefix"@ != "truncated"@,
        "status"@ != "truncated"@,
        "status"@ != "prefix"@,
{
    reveal_strlit("files");
    reveal_strlit("truncated");
    reveal_strlit("prefix");
    reveal_strlit("status");
    assert("files"@.len() == 5 && "truncated"@.len() == 9 && "prefix"@.len() == 6 && "status"@.len() == 6);
    assert("prefix"@[0] == 'p' && "status"@[0] == 's');
}

/// Once one value is too much, nothing behind it is taken.
proof fn lemma_kept_count(base: JsonView, field: Seq<char>, values: Seq<JsonView>, n: int)
    requires
        0 <= n <= values.len(),
    ensures
        kept_count(base, field, values) <= values.len(),
        kept_count(base, field, values.take(n)) <= kept_count(base, field, values),
        kept_count(base, field, values.take(n)) < n ==> kept_count(base, field, values) == kept_count(
            base,
            field,
            values.take(n),
        ),
    decreases values.len(),
{
    if n < values.len() {
        lemma_kept_count(base, field, values.drop_last(), n);
        assert(values.drop_last().take(n) =~= values.take(n));
    } else {
        assert(values.take(n) =~= values);
        if values.len() > 0 {
            lemma_kept_count(base, field, values.drop_last(), values.len() - 1);
        }
    }
}

/// Lists files.
pub fn list_files(request: &ListRequest, listing: NoteListing) -> (answer: Json)
    ensures
        answer@ == list_answer(request@, listing),
{
    let scan = match listing {
        NoteListing::Unsafe => {
            return scan_error("unsafe_path");
        },
        NoteListing::Failed => {
            return scan_error("io_error");
        },
        NoteListing::Missing => {
            return list_start(&request.prefix, false);
        },
        NoteListing::Found(scan) => scan,
    };
    let scan_truncated: bool = scan.truncated;
    let files = sort_files(keep_prefix(scan.files, &request.prefix), request.order, request.descending);
    let file_count: usize = files.len();
    let limit: usize = if file_count <= request.maximum {
        file_count
    } else {
        request.maximum
    };
    let mut result = list_start(&request.prefix, scan_truncated);
    let ghost base = result@;
    let ghost values = file_values(first_files(files_view(files@), request.maximum));
    let ghost views = files_view(files@);
    let mut truncated: bool = scan_truncated;
    let mut emitted: usize = 0;
    proof {
        lemma_list_names();
        assert(views.len() == files@.len());
        assert(values.take(0) =~= Seq::<JsonView>::empty());
        assert(values.take(values.len() as int) =~= values);
        assert(fields_in(filled(base, "files"@, Seq::empty())) =~= fields_in(base));
    }
    while emitted < limit
        invariant_except_break
            kept_count(base, "files"@, values.take(emitted as int)) == emitted,
            truncated == scan_truncated,
        invariant
            base == list_base(opt_view(request.prefix), scan_truncated),
            "files"@ != "truncated"@,
            emitted <= limit,
            limit == values.len(),
            limit <= files@.len(),
            views == files_view(files@),
            values == file_values(first_files(views, request.maximum)),
            values.take(values.len() as int) == values,
            result@ == filled(base, "files"@, values.take(emitted as int)),
        ensures
            emitted == kept_count(base, "files"@, values),
            truncated == (scan_truncated || emitted < values.len()),
        decreases limit - emitted,
    {
        let value = file_value(&files[emitted]);
        let ghost before = result@;
        proof {
            assert(first_files(views, request.maximum)[emitted as int] == views[emitted as int]);
            assert(values[emitted as int] == value@);
            assert(values.take(emitted + 1) =~= values.take(emitted as int).push(value@));
            assert(values.take(emitted + 1).drop_last() =~= values.take(emitted as int));
            assert(items_in(before, "files"@) =~= values.take(emitted as int));
            assert(fields_in(filled(before, "files"@, values.take(emitted + 1))) =~= fields_in(
                filled(base, "files"@, values.take(emitted + 1)),
            ));
            lemma_kept_count(base, "files"@, values, emitted + 1);
        }
        result.push_item("files", value);
        if serialized_len(&result) > MAX_NOTE_RESULT_BYTES {
            result.pop_item("files");
            proof {
                assert(values.take(emitted + 1).drop_last() =~= values.take(emitted as int));
                assert(fields_in(result@) =~= fields_in(before));
            }
            truncated = true;
            break;
        }
        emitted = emitted + 1;
    }
    if file_count > request.maximum {
        truncated = true;
    }
    result.set("truncated", Json::Bool(truncated));
    result
}

/// The note that the arguments ask for, given what came of checking its path.
pub open spec fn read_note_request(arguments: JsonView, path: Result<Seq<char>, JsonView>) -> Result<
    Seq<char>,
    JsonView,
> {
    match text_field(arguments, "path"@) {
        None => Err(invalid_argument_view("path"@, "must be a non-empty string"@)),
        Some(_) => path,
    }
}

/// The path that is to be checked, the empty one where there is none.
pub open spec fn path_in(arguments: JsonView) -> Seq<char> {
    match text_field(arguments, "path"@) {
        Some(path) => path,
        None => Seq::empty(),
    }
}

/// The note that the arguments ask for.
pub fn plan_read_file(arguments: &Json) -> (outcome: Result<String, Json>)
    ensures
        exists|path: Result<Seq<char>, JsonView>|
            #[trigger] path_checked(path, path_in(arguments@), "path"@, false) && path_outcome(outcome)
                == read_note_request(arguments@, path),
{
    match arguments.text_at("path") {
        None => {
            proof {
                let refused = crate::note_helpers::checked_path(Seq::empty(), "path"@, false, Seq::empty());
                assert(path_checked(refused, path_in(arguments@), "path"@, false));
            }
            Err(invalid_argument("path", "must be a non-empty string"))
        },
        Some(path) => {
            let outcome = validated_relative_path(path, "path", false);
            assert(path_checked(path_outcome(outcome), path_in(arguments@), "path"@, false));
            outcome
        },
    }
}

/// The answer that shows lines of a note, before it is cut to what fits.
pub open spec fn lines_view(path: Seq<char>, text: Seq<char>, shown: Seq<char>, start: usize, stop: usize) -> JsonView {
    JsonView::Object(
        map![
            "status"@ => JsonView::Text("ok"@),
            "path"@ => JsonView::Text(path),
            "text"@ => JsonView::Text(shown),
            "start_line"@ => unsigned_view(start as u64),
            "stop_line"@ => unsigned_view(stop as u64),
            "line_count"@ => unsigned_view(lines_of(text).len() as u64),
            "bytes"@ => unsigned_view(utf8_len(text) as u64),
            "truncated"@ => JsonView::Bool(false),
        ],
    )
}

/// The lines of a text from `start` to `stop`, the first line being the first.
pub open spec fn selected_lines(text: Seq<char>, start: usize, stop: usize) -> Seq<char> {
    joined(lines_of(text).subrange(start - 1, stop as int), "\n"@)
}

/// The answer that reads a note.
pub open spec fn read_file_answer(
    arguments: JsonView,
    path: Seq<char>,
    contents: Result<Seq<char>, NoteError>,
) -> JsonView {
    match contents {
        Err(error) => note_error_view(path, error),
        Ok(text) => if lines_of(text).len() == 0 {
            fitted(lines_view(path, text, Seq::empty(), 0, 0), "text"@)
        } else {
            match lines_argument(arguments, lines_of(text).len() as usize) {
                Err(error) => error,
                Ok((start, stop)) => fitted(
                    lines_view(path, text, selected_lines(text, start, stop), start, stop),
                    "text"@,
                ),
            }
        },
    }
}

/// The parts of a row from `from` on, up to `to`, with `separator` between each two.
fn join_part(parts: &Vec<String>, from: usize, to: usize, separator: &str) -> (text: String)
    requires
        from <= to <= parts@.len(),
    ensures
        text@ == joined(texts_view(parts@).subrange(from as int, to as int), separator@),
{
    let mut chosen: Vec<String> = Vec::new();
    let mut index: usize = from;
    while index < to
        invariant
            from <= index <= to <= parts@.len(),
            chosen@.len() == index - from,
            forall|i: int| 0 <= i < chosen@.len() ==> (#[trigger] chosen@[i])@ == parts@[from + i]@,
        decreases to - index,
    {
        chosen.push(parts[index].clone());
        index = index + 1;
    }
    assert(texts_view(chosen@) =~= texts_view(parts@).subrange(from as int, to as int));
    join(&chosen, separator)
}

/// The answer that shows lines of a note.
fn show_lines(path: &str, text: &str, line_count: usize, shown: String, start: usize, stop: usize) -> (answer: Json)
    requires
        line_count == lines_of(text@).len(),
    ensures
        answer@ == fitted(lines_view(path@, text@, shown@, start, stop), "text"@),
{
    let mut result = Json::object();
    result.set("status", Json::text("ok"));
    result.set("path", Json::text(path));
    result.set("text", Json::Text(shown));
    result.set("start_line", Json::count(start));
    result.set("stop_line", Json::count(stop));
    result.set("line_count", Json::count(line_count));
    result.set("bytes", Json::count(byte_len(text)));
    result.set("truncated", Json::Bool(false));
    fit_text_field(result, "text")
}

/// Reads a note: the lines that the arguments ask for, cut to what fits.
pub fn read_file(arguments: &Json, path: &str, contents: Result<String, NoteError>) -> (answer: Json)
    ensures
        answer@ == read_file_answer(arguments@, path@, text_outcome(contents)),
{
    let text = match contents {
        Ok(text) => text,
        Err(error) => {
            return note_error(path, error);
        },
    };
    let found = lines(text.as_str());
    let line_count: usize = found.len();
    assert(texts_view(found@).len() == line_count);
    if line_count == 0 {
        return show_lines(path, text.as_str(), line_count, String::new(), 0, 0);
    }
    match line_range(arguments, line_count) {
        Err(error) => error,
        Ok((start, stop)) => {
            let shown = join_part(&found, start - 1, stop, "\n");
            show_lines(path, text.as_str(), line_count, shown, start, stop)
        },
    }
}

/// A text that is to be written to a note.
#[derive(Debug)]
pub struct WriteRequest {
    pub path: String,
    pub text: String,
}

/// What a `WriteRequest` holds.
#[verifier::ext_equal]
pub struct WriteRequestView {
    pub path: Seq<char>,
    pub text: Seq<char>,
}

impl View for WriteRequest {
    type V = WriteRequestView;

    open spec fn view(&self) -> WriteRequestView {
        WriteRequestView { path: self.path@, text: self.text@ }
    }
}

/// What an outcome with a request holds.
pub open spec fn write_outcome(outcome: Result<WriteRequest, Json>) -> Result<WriteRequestView, JsonView> {
    match outcome {
        Ok(request) => Ok(request@),
        Err(error) => Err(error@),
    }
}

/// The text that the arguments ask to write, given what came of checking the path.
pub open spec fn write_request(arguments: JsonView, path: Result<Seq<char>, JsonView>) -> Result<
    WriteRequestView,
    JsonView,
> {
    match text_field(arguments, "path"@) {
        None => Err(invalid_argument_view("path"@, "must be a non-empty string"@)),
        Some(value) => match text_field(arguments, "text"@) {
            None => Err(invalid_argument_view("text"@, "must be a string"@)),
            Some(text) => match path {
                Err(error) => Err(error),
                Ok(checked) => if utf8_len(text) > MAX_NOTE_BYTES {
                    Err(note_too_large_view(value))
                } else {
                    Ok(WriteRequestView { path: checked, text })
                },
            },
        },
    }
}

/// The text that the arguments ask to write, given what came of checking the path.
pub fn plan_write_with(arguments: &Json, checked: Result<String, Json>) -> (outcome: Result<WriteRequest, Json>)
    ensures
        write_outcome(outcome) == write_request(arguments@, path_outcome(checked)),
{
    let path = match arguments.text_at("path") {
        None => {
            return Err(invalid_argument("path", "must be a non-empty string"));
        },
        Some(path) => path,
    };
    let text = match arguments.text_at("text") {
        None => {
            return Err(invalid_argument("text", "must be a string"));
        },
        Some(text) => text,
    };
    match checked {
        Err(error) => Err(error),
        Ok(checked) => {
            if byte_len(text) > MAX_NOTE_BYTES {
                return Err(note_too_large(path));
            }
            Ok(WriteRequest { path: checked, text: text.to_owned() })
        },
    }
}

/// The text that the arguments ask to write or to append.
pub fn plan_write(arguments: &Json) -> (outcome: Result<WriteRequest, Json>)
    ensures
        exists|path: Result<Seq<char>, JsonView>|
            #[trigger] path_checked(path, path_in(arguments@), "path"@, false) && write_outcome(outcome)
                == write_request(arguments@, path),
{
    let path = match arguments.text_at("path") {
        None => "",
        Some(path) => path,
    };
    proof {
        reveal_strlit("");
        assert(path@ =~= path_in(arguments@));
    }
    let checked = validated_relative_path(path, "path", false);
    assert(path_checked(path_outcome(checked), path_in(arguments@), "path"@, false));
    plan_write_with(arguments, checked)
}

/// What came of writing to disk.
pub open spec fn stored(outcome: Result<(), IoFailure>) -> Result<(), NoteError> {
    match outcome {
        Ok(()) => Ok(()),
        Err(failure) => Err(note_error_of(failure.kind)),
    }
}

/// The answer to a write.
pub open spec fn write_answer(request: WriteRequestView, outcome: Result<(), NoteError>) -> JsonView {
    match outcome {
        Ok(()) => JsonView::Object(
            map![
                "status"@ => JsonView::Text("ok"@),
                "path"@ => JsonView::Text(request.path),
                "bytes"@ => unsigned_view(utf8_len(request.text) as u64),
            ],
        ),
        Err(error) => note_error_view(request.path, error),
    }
}

/// Answers a write, given what came of writing the text to disk.
pub fn write_file(request: &WriteRequest, outcome: Result<(), IoFailure>) -> (answer: Json)
    ensures
        answer@ == write_answer(request@, stored(outcome)),
{
    match outcome {
        Ok(()) => {
            let mut answer = Json::object();
            answer.set("status", Json::text("ok"));
            answer.set("path", Json::text(request.path.as_str()));
            answer.set("bytes", Json::count(byte_len(request.text.as_str())));
            answer
        },
        Err(failure) => note_error(request.path.as_str(), NoteError::from_io(&failure)),
    }
}

/// The text of a note once the request's text was appended, or the answer where that cannot be.
pub open spec fn appended(
    request: WriteRequestView,
    existing: Result<Option<Seq<char>>, NoteError>,
) -> Result<Seq<char>, JsonView> {
    match existing {
        Err(error) => Err(note_error_view(request.path, error)),
        Ok(found) => {
            let before = match found {
                Some(text) => text,
                None => Seq::empty(),
            };
            if utf8_len(before) + utf8_len(request.text) > MAX_NOTE_BYTES {
                Err(note_too_large_view(request.path))
            } else {
                Ok(before + request.text)
            }
        },
    }
}

/// The text of a note once the request's text was appended.
pub fn append_text(request: &WriteRequest, existing: Result<Option<String>, NoteError>) -> (outcome: Result<
    String,
    Json,
>)
    ensures
        path_outcome(outcome) == appended(request@, present_outcome(existing)),
{
    let mut combined = match existing {
        Ok(Some(text)) => text,
        Ok(None) => String::new(),
        Err(error) => {
            return Err(note_error(request.path.as_str(), error));
        },
    };
    let size: usize = byte_len(combined.as_str());
    let more: usize = byte_len(request.text.as_str());
    if size > MAX_NOTE_BYTES || more > MAX_NOTE_BYTES - size {
        return Err(note_too_large(request.path.as_str()));
    }
    combined.append(request.text.as_str());
    Ok(combined)
}

/// The answer to an append that made the note `combined`.
pub open spec fn append_answer(
    request: WriteRequestView,
    combined: Seq<char>,
    outcome: Result<(), NoteError>,
) -> JsonView {
    match outcome {
        Ok(()) => JsonView::Object(
            map![
                "status"@ => JsonView::Text("ok"@),
                "path"@ => JsonView::Text(request.path),
                "bytes"@ => unsigned_view(utf8_len(combined) as u64),
                "appended_bytes"@ => unsigned_view(utf8_len(request.text) as u64),
            ],
        ),
        Err(error) => note_error_view(request.path, error),
    }
}

/// Answers an append, given what came of writing the combined text to disk.
pub fn append_file(request: &WriteRequest, combined: &str, outcome: Result<(), IoFailure>) -> (answer: Json)
    ensures
        answer@ == append_answer(request@, combined@, stored(outcome)),
{
    match outcome {
        Ok(()) => {
            let mut answer = Json::object();
            answer.set("status", Json::text("ok"));
            answer.set("path", Json::text(request.path.as_str()));
            answer.set("bytes", Json::count(byte_len(combined)));
            answer.set("appended_bytes", Json::count(byte_len(request.text.as_str())));
            answer
        },
        Err(failure) => note_error(request.path.as_str(), NoteError::from_io(&failure)),
    }
}

/// What is to be searched for, and where.
#[derive(Debug)]
pub struct SearchRequest {
    pub query: String,
    pub prefix: Option<String>,
    pub max_files: usize,
    pub max_matches: usize,
    pub recent_first: bool,
}

/// What a `SearchRequest` holds.
#[verifier::ext_equal]
pub struct SearchRequestView {
    pub query: Seq<char>,
    pub prefix: Option<Seq<char>>,
    pub max_files: usize,
    pub max_matches: usize,
    pub recent_first: bool,
}

impl View for SearchRequest {
    type V = SearchRequestView;

    open spec fn view(&self) -> SearchRequestView {
        SearchRequestView {
            query: self.query@,
            prefix: opt_view(self.prefix),
            max_files: self.max_files,
            max_matches: self.max_matches,
            recent_first: self.recent_first,
        }
    }
}

/// What an outcome with a request holds.
pub open spec fn search_outcome(outcome: Result<SearchRequest, Json>) -> Result<SearchRequestView, JsonView> {
    match outcome {
        Ok(request) => Ok(request@),
        Err(error) => Err(error@),
    }
}

/// The text that the arguments search for.
pub open spec fn query_of(arguments: JsonView) -> Result<Seq<char>, JsonView> {
    match text_field(arguments, "query"@) {
        None => Err(invalid_argument_view("query"@, "must be a non-empty string"@)),
        Some(query) => if query.len() == 0 {
            Err(invalid_argument_view("query"@, "must not be empty"@))
        } else if query.len() > MAX_NOTE_QUERY_CHARS {
            Err(invalid_argument_view("query"@, "exceeds the maximum query length"@))
        } else {
            Ok(query)
        },
    }
}

/// The search that the arguments ask for, given what came of checking their prefix.
pub open spec fn note_search_request(
    arguments: JsonView,
    prefix: Result<Option<Seq<char>>, JsonView>,
) -> Result<SearchRequestView, JsonView> {
    match query_of(arguments) {
        Err(error) => Err(error),
        Ok(query) => match prefix {
            Err(error) => Err(error),
            Ok(prefix) => match bounded_count(
                arguments,
                "max_files"@,
                MAX_NOTE_SEARCH_FILES,
                MAX_NOTE_SEARCH_FILES,
            ) {
                Err(error) => Err(error),
                Ok(max_files) => match bounded_count(
                    arguments,
                    "max_matches_per_file"@,
                    MAX_NOTE_MATCHES_PER_FILE,
                    MAX_NOTE_MATCHES_PER_FILE,
                ) {
                    Err(error) => Err(error),
                    Ok(max_matches) => Ok(
                        SearchRequestView {
                            query,
                            prefix,
                            max_files,
                            max_matches,
                            recent_first: flag_field(arguments, "recent_file_first"@),
                        },
                    ),
                },
            },
        },
    }
}

/// The search that the arguments ask for, given what came of checking their prefix.
pub fn plan_search_with(arguments: &Json, prefix: Result<Option<String>, Json>) -> (outcome: Result<
    SearchRequest,
    Json,
>)
    ensures
        search_outcome(outcome) == note_search_request(arguments@, optional_path_outcome(prefix)),
{
    let query = match arguments.text_at("query") {
        None => {
            return Err(invalid_argument("query", "must be a non-empty string"));
        },
        Some(query) => query,
    };
    let count: usize = char_count(query);
    if count == 0 {
        return Err(invalid_argument("query", "must not be empty"));
    }
    if count > MAX_NOTE_QUERY_CHARS {
        return Err(invalid_argument("query", "exceeds the maximum query length"));
    }
    let prefix = match prefix {
        Ok(prefix) => prefix,
        Err(error) => {
            return Err(error);
        },
    };
    let max_files: usize = match bounded_usize(
        arguments,
        "max_files",
        MAX_NOTE_SEARCH_FILES,
        MAX_NOTE_SEARCH_FILES,
    ) {
        Ok(max_files) => max_files,
        Err(error) => {
            return Err(error);
        },
    };
    let max_matches: usize = match bounded_usize(
        arguments,
        "max_matches_per_file",
        MAX_NOTE_MATCHES_PER_FILE,
        MAX_NOTE_MATCHES_PER_FILE,
    ) {
        Ok(max_matches) => max_matches,
        Err(error) => {
            return Err(error);
        },
    };
    Ok(
        SearchRequest {
            query: query.to_owned(),
            prefix,
            max_files,
            max_matches,
            recent_first: arguments.flag_at("recent_file_first"),
        },
    )
}

/// The search that the arguments ask for.
pub fn plan_search(arguments: &Json) -> (outcome: Result<SearchRequest, Json>)
    ensures
        exists|prefix: Result<Option<Seq<char>>, JsonView>|
            #[trigger] optional_path_checked(prefix, arguments@, "path_prefix"@, true) && search_outcome(outcome)
                == note_search_request(arguments@, prefix),
{
    let prefix = optional_path(arguments, "path_prefix", true);
    assert(optional_path_checked(optional_path_outcome(prefix), arguments@, "path_prefix"@, true));
    plan_search_with(arguments, prefix)
}

/// The files that a search reads, in their order, how many match its prefix, and whether the scan left
/// some out.
#[derive(Debug)]
pub struct SearchTargets {
    pub files: Vec<NoteFile>,
    pub file_count: usize,
    pub scan_truncated: bool,
}

/// What `SearchTargets` hold.
#[verifier::ext_equal]
pub struct SearchTargetsView {
    pub files: Seq<NoteFileView>,
    pub file_count: usize,
    pub scan_truncated: bool,
}

impl View for SearchTargets {
    type V = SearchTargetsView;

    open spec fn view(&self) -> SearchTargetsView {
        SearchTargetsView {
            files: files_view(self.files@),
            file_count: self.file_count,
            scan_truncated: self.scan_truncated,
        }
    }
}

/// What an outcome with targets holds.
pub open spec fn targets_outcome(outcome: Result<SearchTargets, Json>) -> Result<SearchTargetsView, JsonView> {
    match outcome {
        Ok(targets) => Ok(targets@),
        Err(error) => Err(error@),
    }
}

/// The answer of a search without notes.
pub open spec fn nothing_searched() -> JsonView {
    JsonView::Object(
        map![
            "status"@ => JsonView::Text("ok"@),
            "matches"@ => JsonView::Array(Seq::empty()),
            "files_scanned"@ => unsigned_view(0),
            "truncated"@ => JsonView::Bool(false),
        ],
    )
}

/// The files that a search reads, or its answer where it reads none.
pub open spec fn targets_of(request: SearchRequestView, listing: NoteListing) -> Result<
    SearchTargetsView,
    JsonView,
> {
    match listing {
        NoteListing::Unsafe => Err(scan_error_view("unsafe_path"@)),
        NoteListing::Failed => Err(scan_error_view("io_error"@)),
        NoteListing::Missing => Err(nothing_searched()),
        NoteListing::Found(scan) => {
            let files = listed_files(
                with_prefix(scan@.files, request.prefix),
                FileOrder::CreatedAt,
                request.recent_first,
            );
            Ok(
                SearchTargetsView {
                    files: first_files(files, request.max_files),
                    file_count: files.len() as usize,
                    scan_truncated: scan@.truncated,
                },
            )
        },
    }
}

/// The files that a search reads, or its answer where it reads none.
pub fn search_targets(request: &SearchRequest, listing: NoteListing) -> (outcome: Result<SearchTargets, Json>)
    ensures
        targets_outcome(outcome) == targets_of(request@, listing),
{
    let scan = match listing {
        NoteListing::Unsafe => {
            return Err(scan_error("unsafe_path"));
        },
        NoteListing::Failed => {
            return Err(scan_error("io_error"));
        },
        NoteListing::Missing => {
            let mut answer = Json::object();
            answer.set("status", Json::text("ok"));
            answer.set("matches", Json::array());
            answer.set("files_scanned", Json::unsigned(0));
            answer.set("truncated", Json::Bool(false));
            return Err(answer);
        },
        NoteListing::Found(scan) => scan,
    };
    let scan_truncated: bool = scan.truncated;
    let mut files = sort_files(
        keep_prefix(scan.files, &request.prefix),
        FileOrder::CreatedAt,
        request.recent_first,
    );
    let ghost all = files_view(files@);
    let file_count: usize = files.len();
    assert(all.len() == file_count);
    while files.len() > request.max_files
        invariant
            files@.len() <= all.len(),
            files_view(files@) == all.take(files@.len() as int),
            files@.len() < all.len() ==> files@.len() >= request.max_files,
        decreases files@.len(),
    {
        let ghost before = files@;
        files.pop();
        assert(files_view(files@) =~= files_view(before).drop_last());
        assert(all.take(before.len() as int).drop_last() =~= all.take(files@.len() as int));
    }
    assert(files_view(files@) =~= first_files(all, request.max_files));
    Ok(SearchTargets { files, file_count, scan_truncated })
}

/// What a search has found so far.
#[derive(Debug)]
pub struct SearchState {
    pub scanned: u64,
    pub with_matches: u64,
    pub matches: Vec<Json>,
    pub errors: Vec<Json>,
    pub truncated: bool,
}

/// What a `SearchState` holds.
#[verifier::ext_equal]
pub struct SearchStateView {
    pub scanned: u64,
    pub with_matches: u64,
    pub matches: Seq<JsonView>,
    pub errors: Seq<JsonView>,
    pub truncated: bool,
}

impl View for SearchState {
    type V = SearchStateView;

    open spec fn view(&self) -> SearchStateView {
        SearchStateView {
            scanned: self.scanned,
            with_matches: self.with_matches,
            matches: values_view(self.matches@),
            errors: values_view(self.errors@),
            truncated: self.truncated,
        }
    }
}

/// What a search says of a line that holds the query.
pub open spec fn match_view(path: Seq<char>, line: nat, text: Seq<char>, truncated: bool) -> JsonView {
    JsonView::Object(
        map![
            "path"@ => JsonView::Text(path),
            "line"@ => unsigned_view(line as u64),
            "text"@ => JsonView::Text(text),
            "truncated"@ => JsonView::Bool(truncated),
        ],
    )
}

/// What a search says of a note that cannot be read.
pub open spec fn unread_view(path: Seq<char>, error: NoteError) -> JsonView {
    JsonView::Object(
        map!["path"@ => JsonView::Text(path), "reason"@ => JsonView::Text(reason_of(error))],
    )
}

impl SearchStateView {
    /// The answer of the search.
    pub open spec fn rendered(self) -> JsonView {
        JsonView::Object(
            map![
                "status"@ => JsonView::Text("ok"@),
                "matches"@ => JsonView::Array(self.matches),
                "files_scanned"@ => unsigned_view(self.scanned),
                "files_with_matches"@ => unsigned_view(self.with_matches),
                "errors"@ => JsonView::Array(self.errors),
                "truncated"@ => JsonView::Bool(self.truncated),
            ],
        )
    }

    /// Something is left out.
    pub open spec fn cut_short(self) -> SearchStateView {
        SearchStateView { truncated: true, ..self }
    }

    /// The search with one more matching line.
    pub open spec fn with_match(self, path: Seq<char>, line: nat, text: Seq<char>) -> SearchStateView {
        let (shown, cut) = bounded(text, MAX_NOTE_MATCH_TEXT_CHARS);
        SearchStateView {
            matches: self.matches.push(match_view(path, line, shown, cut)),
            truncated: self.truncated || cut,
            ..self
        }
    }

    /// The search after the lines of a note from `from` on, `count` of the lines before having matched,
    /// and how many match in all. It stops at the limit on matches, and at a match that makes the answer
    /// too large.
    pub open spec fn after_lines(
        self,
        path: Seq<char>,
        lines: Seq<Seq<char>>,
        query: Seq<char>,
        max_matches: usize,
        from: nat,
        count: nat,
    ) -> (SearchStateView, nat)
        decreases lines.len() - from,
    {
        if from >= lines.len() {
            (self, count)
        } else if !occurs(lines[from as int], query) {
            self.after_lines(path, lines, query, max_matches, from + 1, count)
        } else if count >= max_matches {
            (self.cut_short(), count + 1)
        } else {
            let found = self.with_match(path, from + 1, lines[from as int]);
            if note_fits(found.rendered()) {
                found.after_lines(path, lines, query, max_matches, from + 1, count + 1)
            } else {
                (self.cut_short(), count + 1)
            }
        }
    }

    /// The search after a note.
    pub open spec fn after_note(
        self,
        request: SearchRequestView,
        path: Seq<char>,
        contents: Result<Seq<char>, NoteError>,
    ) -> SearchStateView {
        let counted = SearchStateView { scanned: (self.scanned + 1) as u64, ..self };
        match contents {
            Err(error) => SearchStateView {
                errors: counted.errors.push(unread_view(path, error)),
                truncated: true,
                ..counted
            },
            Ok(text) => {
                let (searched, count) = counted.after_lines(
                    path,
                    lines_of(text),
                    request.query,
                    request.max_matches,
                    0,
                    0,
                );
                if count > 0 {
                    SearchStateView { with_matches: (searched.with_matches + 1) as u64, ..searched }
                } else {
                    searched
                }
            },
        }
    }

    /// The search after the first notes.
    pub open spec fn after_notes(
        self,
        request: SearchRequestView,
        files: Seq<NoteFileView>,
        contents: Seq<Result<String, NoteError>>,
        count: nat,
    ) -> SearchStateView
        decreases count,
    {
        if count == 0 {
            self
        } else {
            self.after_notes(request, files, contents, (count - 1) as nat).after_note(
                request,
                files[count - 1].path,
                text_outcome(contents[count - 1]),
            )
        }
    }
}

/// A search that has read nothing.
pub open spec fn search_start(scan_truncated: bool) -> SearchStateView {
    SearchStateView {
        scanned: 0,
        with_matches: 0,
        matches: Seq::empty(),
        errors: Seq::empty(),
        truncated: scan_truncated,
    }
}

/// The answer of a search, before it is cut to what fits.
pub open spec fn whole_search(
    request: SearchRequestView,
    targets: SearchTargetsView,
    contents: Seq<Result<String, NoteError>>,
) -> SearchStateView {
    let searched = search_start(targets.scan_truncated).after_notes(
        request,
        targets.files,
        contents,
        targets.files.len(),
    );
    SearchStateView {
        truncated: searched.truncated || (request.max_files < MAX_NOTE_SEARCH_FILES && targets.files.len()
            == request.max_files) || targets.file_count > request.max_files,
        ..searched
    }
}

/// The answer of a search.
pub open spec fn search_answer(
    request: SearchRequestView,
    targets: SearchTargetsView,
    contents: Seq<Result<String, NoteError>>,
) -> JsonView {
    bounded_array(
        bounded_array(whole_search(request, targets, contents).rendered(), "matches"@),
        "errors"@,
    )
}

/// An array of the values.
fn array_of(values: &Vec<Json>) -> (array: Json)
    ensures
        array@ == JsonView::Array(values_view(values@)),
{
    let mut items: Vec<Json> = Vec::new();
    let mut index: usize = 0;
    while index < values.len()
        invariant
            index <= values@.len(),
            items@.len() == index,
            forall|i: int| 0 <= i < index ==> (#[trigger] items@[i])@ == values@[i]@,
        decreases values@.len() - index,
    {
        items.push(values[index].duplicate());
        index = index + 1;
    }
    proof {
        lemma_items_view(items@);
        assert(items_view(items@) =~= values_view(values@));
    }
    Json::Array(items)
}

impl SearchState {
    /// The answer of the search.
    fn render(&self) -> (answer: Json)
        ensures
            answer@ == self@.rendered(),
    {
        let mut answer = Json::object();
        answer.set("status", Json::text("ok"));
        answer.set("matches", array_of(&self.matches));
        answer.set("files_scanned", Json::unsigned(self.scanned));
        answer.set("files_with_matches", Json::unsigned(self.with_matches));
        answer.set("errors", array_of(&self.errors));
        answer.set("truncated", Json::Bool(self.truncated));
        answer
    }

    /// Takes in a matching line, unless the answer would then be too large; says whether it did.
    fn add_match(&mut self, path: &str, line: usize, text: &str) -> (added: bool)
        ensures
            added == note_fits(old(self)@.with_match(path@, line as nat, text@).rendered()),
            final(self)@ == if added {
                old(self)@.with_match(path@, line as nat, text@)
            } else {
                old(self)@.cut_short()
            },
    {
        let (shown, cut) = bounded_text(text, MAX_NOTE_MATCH_TEXT_CHARS);
        let mut value = Json::object();
        value.set("path", Json::text(path));
        value.set("line", Json::count(line));
        value.set("text", Json::Text(shown));
        value.set("truncated", Json::Bool(cut));
        let ghost before = self.matches@;
        if cut {
            self.truncated = true;
        }
        self.matches.push(value);
        assert(values_view(self.matches@) =~= values_view(before).push(value@));
        if serialized_len(&self.render()) > MAX_NOTE_RESULT_BYTES {
            self.matches.pop();
            assert(self.matches@ =~= before);
            self.truncated = true;
            return false;
        }
        true
    }

    /// Takes in the matching lines of a note; gives how many there are, up to one more than is taken in.
    fn add_lines(&mut self, path: &str, found: &Vec<String>, query: &str, max_matches: usize) -> (count: usize)
        ensures
            (final(self)@, count as nat) == old(self)@.after_lines(
                path@,
                texts_view(found@),
                query@,
                max_matches,
                0,
                0,
            ),
    {
        let ghost views = texts_view(found@);
        let ghost start = self@;
        let mut count: usize = 0;
        let mut index: usize = 0;
        while index < found.len()
            invariant
                index <= found@.len(),
                count <= index,
                views == texts_view(found@),
                start == old(self)@,
                start.after_lines(path@, views, query@, max_matches, 0, 0) == self@.after_lines(
                    path@,
                    views,
                    query@,
                    max_matches,
                    index as nat,
                    count as nat,
                ),
            decreases found@.len() - index,
        {
            assert(views[index as int] == found@[index as int]@);
            if contains(found[index].as_str(), query) {
                if count >= max_matches {
                    self.truncated = true;
                    return count + 1;
                }
                if !self.add_match(path, index + 1, found[index].as_str()) {
                    return count + 1;
                }
                count = count + 1;
            }
            index = index + 1;
        }
        count
    }

    /// Takes in a note.
    fn add_note(&mut self, request: &SearchRequest, path: &str, contents: &Result<String, NoteError>)
        requires
            old(self).scanned < u64::MAX,
            old(self).with_matches <= old(self).scanned,
        ensures
            final(self)@ == old(self)@.after_note(request@, path@, text_outcome(*contents)),
            final(self).scanned == old(self).scanned + 1,
            final(self).with_matches <= final(self).scanned,
    {
        self.scanned = self.scanned + 1;
        let ghost counted = self@;
        match contents {
            Err(error) => {
                let mut value = Json::object();
                value.set("path", Json::text(path));
                value.set("reason", Json::text(error.reason()));
                let ghost before = self.errors@;
                self.errors.push(value);
                assert(values_view(self.errors@) =~= values_view(before).push(value@));
                self.truncated = true;
            },
            Ok(text) => {
                let found = lines(text.as_str());
                proof {
                    lemma_after_lines_counts(
                        counted,
                        path@,
                        lines_of(text@),
                        request.query@,
                        request.max_matches,
                        0,
                        0,
                    );
                    assert(texts_view(found@).len() == found@.len());
                }
                let count: usize = self.add_lines(
                    path,
                    &found,
                    request.query.as_str(),
                    request.max_matches,
                );
                if count > 0 {
                    self.with_matches = self.with_matches + 1;
                }
            },
        }
    }
}

/// Searching lines leaves the counts of notes alone.
proof fn lemma_after_lines_counts(
    state: SearchStateView,
    path: Seq<char>,
    lines: Seq<Seq<char>>,
    query: Seq<char>,
    max_matches: usize,
    from: nat,
    count: nat,
)
    ensures
        state.after_lines(path, lines, query, max_matches, from, count).0.scanned == state.scanned,
        state.after_lines(path, lines, query, max_matches, from, count).0.with_matches == state.with_matches,
    decreases lines.len() - from,
{
    if from < lines.len() {
        lemma_after_lines_counts(state, path, lines, query, max_matches, from + 1, count);
        let found = state.with_match(path, from + 1, lines[from as int]);
        lemma_after_lines_counts(found, path, lines, query, max_matches, from + 1, count + 1);
    }
}

/// Searches notes for lines that hold the query, given the text of each file that is read.
pub fn search_contents(request: &SearchRequest, targets: &SearchTargets, contents: &Vec<Result<String, NoteError>>) -> (answer:
    Json)
    requires
        contents@.len() == targets.files@.len(),
    ensures
        answer@ == search_answer(request@, targets@, contents@),
{
    let mut state = SearchState {
        scanned: 0,
        with_matches: 0,
        matches: Vec::new(),
        errors: Vec::new(),
        truncated: targets.scan_truncated,
    };
    let ghost start = search_start(targets.scan_truncated);
    assert(state@ =~= start);
    let mut index: usize = 0;
    while index < targets.files.len()
        invariant
            index <= targets.files@.len(),
            contents@.len() == targets.files@.len(),
            start == search_start(targets.scan_truncated),
            state.scanned == index,
            state.with_matches <= state.scanned,
            state@ == start.after_notes(request@, targets@.files, contents@, index as nat),
        decreases targets.files@.len() - index,
    {
        assert(targets@.files[index as int] == targets.files@[index as int]@);
        state.add_note(request, targets.files[index].path.as_str(), &contents[index]);
        index = index + 1;
    }
    if (request.max_files < MAX_NOTE_SEARCH_FILES && targets.files.len() == request.max_files)
        || targets.file_count > request.max_files {
        state.truncated = true;
    }
    assert(state@ =~= whole_search(request@, targets@, contents@));
    let mut answer = state.render();
    bound_array_field(&mut answer, "matches");
    proof {
        assert(answer@ is Object);
    }
    bound_array_field(&mut answer, "errors");
    answer
}

/// What a hint says of the index note.
pub open spec fn index_part(index: Result<Seq<char>, NoteError>) -> Seq<char> {
    match index {
        Ok(text) => {
            let (excerpt, cut) = bounded(text, (MAX_THREAD_HINT_BYTES / 2) as usize);
            if cut {
                excerpt + "\n[INDEX.md excerpt truncated]"@
            } else {
                excerpt
            }
        },
        Err(NoteError::NotFound) => "(INDEX.md is not present)"@,
        Err(error) => "(INDEX.md unavailable: "@ + reason_of(error) + ")"@,
    }
}

/// What a hint says of a file.
pub open spec fn file_line(file: NoteFileView) -> Seq<char> {
    "- "@ + file.path + " ("@ + decimal(file.bytes as nat) + " bytes)\n"@
}

/// The text with the lines of the files from `from` on, until it is too long.
pub open spec fn with_file_lines(text: Seq<char>, files: Seq<NoteFileView>, from: nat) -> Seq<char>
    decreases files.len() - from,
{
    if from >= files.len() {
        text
    } else {
        let longer = text + file_line(files[from as int]);
        if utf8_len(longer) > MAX_THREAD_HINT_BYTES {
            longer
        } else {
            with_file_lines(longer, files, from + 1)
        }
    }
}

/// The text of a hint before it is cut to its bound.
pub open spec fn whole_hint(index: Result<Seq<char>, NoteError>, scan: FileScanView) -> Seq<char> {
    let head = "Local notes progress:\n"@ + index_part(index) + "\nFiles:\n"@;
    let files = listed_files(scan.files, FileOrder::UpdatedAt, true);
    let listed = with_file_lines(head, first_files(files, MAX_THREAD_HINT_FILES), 0);
    if scan.truncated {
        listed + "[file inventory truncated]\n"@
    } else {
        listed
    }
}

/// The hint that a thread starts with: an excerpt of its index note and its latest files.
pub open spec fn hint_view(index: Result<Seq<char>, NoteError>, scan: FileScanView) -> JsonView {
    JsonView::Object(
        map!["text"@ => JsonView::Text(bounded(whole_hint(index, scan), MAX_THREAD_HINT_BYTES).0)],
    )
}

/// The hint that a thread starts with, given its index note and the files that a scan found.
pub fn thread_hint(index: Result<String, NoteError>, scan: FileScan) -> (hint: Json)
    ensures
        hint@ == hint_view(text_outcome(index), scan@),
{
    let mut text = "Local notes progress:\n".to_owned();
    let ghost start = text@;
    let mut part = String::new();
    match &index {
        Ok(found) => {
            let (excerpt, cut) = bounded_text(found.as_str(), MAX_THREAD_HINT_BYTES / 2);
            part.append(excerpt.as_str());
            if cut {
                part.append("\n[INDEX.md excerpt truncated]");
            }
            assert(part@ =~= index_part(text_outcome(index)));
        },
        Err(error) => match error {
            NoteError::NotFound => {
                part.append("(INDEX.md is not present)");
                assert(part@ =~= index_part(text_outcome(index)));
            },
            _ => {
                part.append("(INDEX.md unavailable: ");
                part.append(error.reason());
                part.append(")");
                assert(part@ =~= index_part(text_outcome(index)));
            },
        },
    }
    text.append(part.as_str());
    text.append("\nFiles:\n");
    let scan_truncated: bool = scan.truncated;
    let ghost head = text@;
    let files = sort_files(scan.files, FileOrder::UpdatedAt, true);
    let ghost all = files_view(files@);
    let ghost first = first_files(all, MAX_THREAD_HINT_FILES);
    let limit: usize = if files.len() <= MAX_THREAD_HINT_FILES {
        files.len()
    } else {
        MAX_THREAD_HINT_FILES
    };
    assert(all.len() == files@.len());
    let mut place: usize = 0;
    while place < limit
        invariant_except_break
            with_file_lines(head, first, 0) == with_file_lines(text@, first, place as nat),
        invariant
            place <= limit,
            limit == first.len(),
            limit <= files@.len(),
            all == files_view(files@),
            first == first_files(all, MAX_THREAD_HINT_FILES),
        ensures
            text@ == with_file_lines(head, first, 0),
        decreases limit - place,
    {
        assert(first[place as int] == files@[place as int]@) by {
            assert(all[place as int] == files@[place as int]@);
        }
        let ghost before = text@;
        text.append("- ");
        text.append(files[place].path.as_str());
        text.append(" (");
        text.append(decimal_text(files[place].bytes).as_str());
        text.append(" bytes)\n");
        assert(text@ =~= before + file_line(first[place as int]));
        if byte_len(text.as_str()) > MAX_THREAD_HINT_BYTES {
            break;
        }
        place = place + 1;
    }
    if scan_truncated {
        text.append("[file inventory truncated]\n");
    }
    let (bounded_hint, _) = bounded_text(text.as_str(), MAX_THREAD_HINT_BYTES);
    let mut hint = Json::object();
    hint.set("text", Json::Text(bounded_hint));
    hint
}

/// A hint keeps to its bound.
pub proof fn law_hint_is_bounded(index: Result<Seq<char>, NoteError>, scan: FileScanView)
    ensures
        text_field(hint_view(index, scan), "text"@) matches Some(text) && utf8_len(text) <= MAX_THREAD_HINT_BYTES,
{
    lemma_marker_size();
    law_bounded_text_keeps_to_its_bound(whole_hint(index, scan), MAX_THREAD_HINT_BYTES);
}

/// The marker of a cut text takes twelve bytes.
proof fn lemma_marker_size()
    ensures
        utf8_len("\n[truncated]"@) <= 48,
{
    reveal_strlit("\n[truncated]");
    lemma_utf8_len_bounds("\n[truncated]"@);
}

/// A path that was accepted is the one that was given, relative, without a piece that leads elsewhere:
/// the note lies below the notes of its thread.
pub proof fn law_accepted_paths_stay_inside(
    thread_id: Seq<char>,
    value: Seq<char>,
    field: Seq<char>,
    path: Seq<char>,
)
    requires
        path_checked(Ok(path), value, field, false),
    ensures
        path == value,
        0 < utf8_len(path) <= MAX_NOTE_PATH_BYTES,
        note_location(thread_id, path).take(2) == notes_directory(thread_id),
        note_location(thread_id, path).len() > 2,
        forall|i: int|
            2 <= i < note_location(thread_id, path).len() ==> ordinary_name(
                #[trigger] note_location(thread_id, path)[i],
            ),
{
    assert(value.len() > 0 && path_refusal(value) is None);
    law_pieces_join(path, '/');
    lemma_utf8_len_bounds(path);
    let location = note_location(thread_id, path);
    assert(location.take(2) =~= notes_directory(thread_id));
    assert forall|i: int| 2 <= i < location.len() implies ordinary_name(#[trigger] location[i]) by {
        assert(location[i] == pieces(path, '/')[i - 2]);
    }
}

/// Notes of different threads, and notes with different paths, lie at different places.
pub proof fn law_notes_lie_apart(left: Seq<char>, right: Seq<char>, path: Seq<char>, other: Seq<char>)
    requires
        left != right || path != other,
    ensures
        note_location(left, path) != note_location(right, other),
{
    let a = note_location(left, path);
    let b = note_location(right, other);
    if a == b {
        assert(a[0] == left);
        assert(b[0] == right);
        assert(a.skip(2) =~= pieces(path, '/'));
        assert(b.skip(2) =~= pieces(other, '/'));
        law_pieces_join(path, '/');
        law_pieces_join(other, '/');
    }
}

/// What was written to a note is what is read from it: the bytes of an admitted text decode to it.
pub proof fn law_note_reads_back(read: NoteRead, text: Seq<char>)
    requires
        utf8_len(text) <= MAX_NOTE_BYTES,
        note_presence(read.walk@, read.own) matches Ok(present) && present,
        read.contents matches Ok(bytes) && bytes@ == encode_utf8(text),
    ensures
        needed_note(read) matches Ok(found) && found == text,
{
    encode_utf8_valid_utf8(text);
    encode_utf8_decode_utf8(text);
}

/// A text that was appended in two steps is the one that was appended at once, as long as it fits.
pub proof fn law_appends_join(
    path: Seq<char>,
    first: Seq<char>,
    second: Seq<char>,
    existing: Result<Option<Seq<char>>, NoteError>,
)
    requires
        appended(WriteRequestView { path, text: first + second }, existing) is Ok,
    ensures
        appended(WriteRequestView { path, text: first }, existing) matches Ok(middle) && appended(
            WriteRequestView { path, text: second },
            Ok(Some(middle)),
        ) == appended(WriteRequestView { path, text: first + second }, existing),
{
    let before = match existing {
        Ok(Some(text)) => text,
        _ => Seq::empty(),
    };
    lemma_utf8_len_concat(first, second);
    lemma_utf8_len_concat(before, first);
    assert(before + first + second =~= before + (first + second));
}

/// An argument is left open.
pub open spec fn left_open(arguments: JsonView, field: Seq<char>) -> bool {
    match field_of(arguments, field) {
        None => true,
        Some(value) => value == JsonView::Null,
    }
}

/// The answer that shows a whole note.
pub open spec fn whole_note_view(path: Seq<char>, text: Seq<char>) -> JsonView {
    if text.len() == 0 {
        lines_view(path, text, text, 0, 0)
    } else {
        lines_view(path, text, text, 1, lines_of(text).len() as usize)
    }
}

/// Reading a whole note gives its text back, as long as it fits in an answer. Left out are texts with a
/// carriage return before a line feed or a line feed at the end, of which the lines are shown.
pub proof fn law_whole_read_gives_text(arguments: JsonView, path: Seq<char>, text: Seq<char>)
    requires
        plain_lines(text),
        text.len() <= usize::MAX,
        left_open(arguments, "start_line"@),
        left_open(arguments, "stop_line"@),
        note_fits(whole_note_view(path, text)),
    ensures
        read_file_answer(arguments, path, Ok(text)) == whole_note_view(path, text),
        text_field(read_file_answer(arguments, path, Ok(text)), "text"@) == Some(text),
{
    law_lines_join(text);
    lemma_lines_fewer(text);
    reveal_strlit("\n");
    assert("\n"@ =~= seq!['\n']);
    let count = lines_of(text).len();
    assert(lines_of(text).subrange(0, count as int) =~= lines_of(text));
    lemma_lines_names(path, text, text, 1, count as usize);
    lemma_lines_names(path, text, text, 0, 0);
    if text.len() == 0 {
        assert(text =~= Seq::empty());
    }
}

/// A text has no more lines than characters.
proof fn lemma_lines_fewer(text: Seq<char>)
    ensures
        lines_of(text).len() <= text.len(),
    decreases text.len(),
{
    lemma_line_end(text);
    if text.len() > 0 && line_end(text) < text.len() {
        lemma_lines_fewer(text.skip(line_end(text) + 1));
    }
}

/// What an answer with lines holds under its names.
proof fn lemma_lines_names(path: Seq<char>, text: Seq<char>, shown: Seq<char>, start: usize, stop: usize)
    ensures
        field_of(lines_view(path, text, shown, start, stop), "text"@) == Some(JsonView::Text(shown)),
        field_of(lines_view(path, text, shown, start, stop), "truncated"@) == Some(JsonView::Bool(false)),
        "text"@ != "truncated"@,
        fields_in(lines_view(path, text, shown, start, stop)).dom().finite(),
{
    reveal_strlit("text");
    reveal_strlit("start_line");
    reveal_strlit("stop_line");
    reveal_strlit("line_count");
    reveal_strlit("bytes");
    reveal_strlit("truncated");
    assert("text"@.len() == 4 && "start_line"@.len() == 10 && "stop_line"@.len() == 9 && "line_count"@.len() == 10
        && "bytes"@.len() == 5 && "truncated"@.len() == 9);
}

/// The names in the answers of the note tools are short.
proof fn lemma_name_sizes()
    ensures
        quoted_size("status"@) <= 40,
        quoted_size("ok"@) <= 40,
        quoted_size("unavailable"@) <= 40,
        quoted_size("prefix"@) <= 40,
        quoted_size("files"@) <= 40,
        quoted_size("truncated"@) <= 40,
        quoted_size("path"@) <= 40,
        quoted_size("text"@) <= 40,
        quoted_size("start_line"@) <= 40,
        quoted_size("stop_line"@) <= 40,
        quoted_size("line_count"@) <= 40,
        quoted_size("bytes"@) <= 40,
        quoted_size("appended_bytes"@) <= 40,
        quoted_size("reason"@) <= 40,
        quoted_size("matches"@) <= 40,
        quoted_size("errors"@) <= 40,
{
    reveal_strlit("status");
    reveal_strlit("ok");
    reveal_strlit("unavailable");
    reveal_strlit("prefix");
    reveal_strlit("files");
    reveal_strlit("truncated");
    reveal_strlit("path");
    reveal_strlit("text");
    reveal_strlit("start_line");
    reveal_strlit("stop_line");
    reveal_strlit("line_count");
    reveal_strlit("bytes");
    reveal_strlit("appended_bytes");
    reveal_strlit("reason");
    reveal_strlit("matches");
    reveal_strlit("errors");
    lemma_plain_size("status"@);
    lemma_plain_size("ok"@);
    lemma_plain_size("unavailable"@);
    lemma_plain_size("prefix"@);
    lemma_plain_size("files"@);
    lemma_plain_size("truncated"@);
    lemma_plain_size("path"@);
    lemma_plain_size("text"@);
    lemma_plain_size("start_line"@);
    lemma_plain_size("stop_line"@);
    lemma_plain_size("line_count"@);
    lemma_plain_size("bytes"@);
    lemma_plain_size("appended_bytes"@);
    lemma_plain_size("reason"@);
    lemma_plain_size("matches"@);
    lemma_plain_size("errors"@);
}

/// The words for errors are short.
proof fn lemma_reason_size(error: NoteError)
    ensures
        quoted_size(reason_of(error)) <= 40,
{
    reveal_strlit("not_found");
    reveal_strlit("unsafe_path");
    reveal_strlit("not_a_file");
    reveal_strlit("too_large");
    reveal_strlit("non_utf8");
    reveal_strlit("io_error");
    lemma_plain_size(reason_of(error));
}

/// A list before its files is small.
proof fn lemma_list_base(prefix: Option<Seq<char>>, truncated: bool)
    requires
        prefix matches Some(prefix) ==> utf8_len(prefix) <= MAX_NOTE_PATH_BYTES,
    ensures
        note_fits(list_base(prefix, truncated)),
        fields_in(list_base(prefix, truncated)).dom().finite(),
        field_of(list_base(prefix, truncated), "files"@) == Some(JsonView::Array(Seq::empty())),
        field_of(list_base(prefix, truncated), "truncated"@) == Some(JsonView::Bool(truncated)),
{
    lemma_name_sizes();
    lemma_list_names();
    let start = JsonView::Object(Map::empty());
    let one = with_field(start, "status"@, JsonView::Text("ok"@));
    let two = with_field(one, "prefix"@, text_or_null(prefix));
    let three = with_field(two, "files"@, JsonView::Array(Seq::empty()));
    lemma_size_with_field_bound(start, "status"@, JsonView::Text("ok"@));
    if let Some(prefix) = prefix {
        lemma_quoted_size_bound(prefix);
    }
    lemma_size_with_field_bound(one, "prefix"@, text_or_null(prefix));
    lemma_size_with_field_bound(two, "files"@, JsonView::Array(Seq::empty()));
    lemma_size_with_field_bound(three, "truncated"@, JsonView::Bool(truncated));
    assert(list_base(prefix, truncated) == with_field(three, "truncated"@, JsonView::Bool(truncated)));
}

/// What a list takes fits, unless it takes nothing.
proof fn lemma_kept_fits(base: JsonView, field: Seq<char>, values: Seq<JsonView>)
    ensures
        kept_count(base, field, values) <= values.len(),
        kept_count(base, field, values) > 0 ==> note_fits(
            filled(base, field, values.take(kept_count(base, field, values) as int)),
        ),
    decreases values.len(),
{
    if values.len() > 0 {
        lemma_kept_fits(base, field, values.drop_last());
        let kept = kept_count(base, field, values);
        if kept == values.len() {
            assert(values.take(kept as int) =~= values);
        } else {
            assert(values.drop_last().take(kept as int) =~= values.take(kept as int));
        }
    }
}

/// A list of files stays within the limit on results, whatever files there are.
pub proof fn law_file_list_fits(request: ListRequestView, listing: NoteListing)
    requires
        request.prefix matches Some(prefix) ==> utf8_len(prefix) <= MAX_NOTE_PATH_BYTES,
    ensures
        note_fits(list_answer(request, listing)),
{
    lemma_list_base(request.prefix, false);
    lemma_list_names();
    match listing {
        NoteListing::Found(scan) => {
            let scan = scan@;
            let files = listed_files(
                with_prefix(scan.files, request.prefix),
                request.order,
                request.descending,
            );
            let values = file_values(first_files(files, request.maximum));
            let base = list_base(request.prefix, scan.truncated);
            let count = kept_count(base, "files"@, values);
            lemma_list_base(request.prefix, scan.truncated);
            lemma_kept_fits(base, "files"@, values);
            let shown = filled(base, "files"@, values.take(count as int));
            if count == 0 {
                assert(values.take(0) =~= Seq::<JsonView>::empty());
                assert(fields_in(shown) =~= fields_in(base));
            }
            let truncated = scan.truncated || count < values.len() || files.len() > request.maximum;
            lemma_size_with_field(base, "files"@, JsonView::Array(values.take(count as int)));
            lemma_size_with_field(shown, "truncated"@, JsonView::Bool(truncated));
        },
        NoteListing::Missing => {},
        NoteListing::Unsafe => {
            reveal_strlit("unsafe_path");
            lemma_plain_size("unsafe_path"@);
            lemma_scan_error_fits("unsafe_path"@);
        },
        NoteListing::Failed => {
            reveal_strlit("io_error");
            lemma_plain_size("io_error"@);
            lemma_scan_error_fits("io_error"@);
        },
    }
}

/// The answer where the notes cannot be scanned is small.
proof fn lemma_scan_error_fits(reason: Seq<char>)
    requires
        quoted_size(reason) <= 1000,
    ensures
        note_fits(scan_error_view(reason)),
{
    lemma_name_sizes();
    let start = JsonView::Object(Map::empty());
    let one = with_field(start, "status"@, JsonView::Text("unavailable"@));
    let two = with_field(one, "reason"@, JsonView::Text(reason));
    lemma_size_with_field_bound(start, "status"@, JsonView::Text("unavailable"@));
    lemma_size_with_field_bound(one, "reason"@, JsonView::Text(reason));
    lemma_size_with_field_bound(two, "truncated"@, JsonView::Bool(true));
    assert(scan_error_view(reason) == with_field(two, "truncated"@, JsonView::Bool(true)));
}

/// The answer where a note cannot be used is small.
pub proof fn law_note_error_fits(path: Seq<char>, error: NoteError)
    requires
        utf8_len(path) <= MAX_NOTE_PATH_BYTES,
    ensures
        note_fits(note_error_view(path, error)),
{
    lemma_name_sizes();
    lemma_reason_size(error);
    lemma_quoted_size_bound(path);
    let start = JsonView::Object(Map::empty());
    let one = with_field(start, "status"@, JsonView::Text("unavailable"@));
    let two = with_field(one, "path"@, JsonView::Text(path));
    lemma_size_with_field_bound(start, "status"@, JsonView::Text("unavailable"@));
    lemma_size_with_field_bound(one, "path"@, JsonView::Text(path));
    lemma_size_with_field_bound(two, "reason"@, JsonView::Text(reason_of(error)));
    assert(note_error_view(path, error) == with_field(two, "reason"@, JsonView::Text(reason_of(error))));
}

/// An answer with lines is small without its text.
proof fn lemma_lines_base(path: Seq<char>, text: Seq<char>, start: usize, stop: usize)
    requires
        utf8_len(path) <= MAX_NOTE_PATH_BYTES,
    ensures
        note_fits(lines_view(path, text, Seq::empty(), start, stop)),
{
    lemma_name_sizes();
    lemma_quoted_size_bound(path);
    let nothing = JsonView::Object(Map::empty());
    let one = with_field(nothing, "status"@, JsonView::Text("ok"@));
    let two = with_field(one, "path"@, JsonView::Text(path));
    let three = with_field(two, "text"@, JsonView::Text(Seq::empty()));
    let four = with_field(three, "start_line"@, unsigned_view(start as u64));
    let five = with_field(four, "stop_line"@, unsigned_view(stop as u64));
    let six = with_field(five, "line_count"@, unsigned_view(lines_of(text).len() as u64));
    let seven = with_field(six, "bytes"@, unsigned_view(utf8_len(text) as u64));
    lemma_size_with_field_bound(nothing, "status"@, JsonView::Text("ok"@));
    lemma_size_with_field_bound(one, "path"@, JsonView::Text(path));
    lemma_size_with_field_bound(two, "text"@, JsonView::Text(Seq::empty()));
    lemma_decimal_size(start as nat);
    lemma_size_with_field_bound(three, "start_line"@, unsigned_view(start as u64));
    lemma_decimal_size(stop as nat);
    lemma_size_with_field_bound(four, "stop_line"@, unsigned_view(stop as u64));
    lemma_decimal_size((lines_of(text).len() as u64) as nat);
    lemma_size_with_field_bound(five, "line_count"@, unsigned_view(lines_of(text).len() as u64));
    lemma_decimal_size((utf8_len(text) as u64) as nat);
    lemma_size_with_field_bound(six, "bytes"@, unsigned_view(utf8_len(text) as u64));
    lemma_size_with_field_bound(seven, "truncated"@, JsonView::Bool(false));
    assert(lines_view(path, text, Seq::empty(), start, stop) == with_field(
        seven,
        "truncated"@,
        JsonView::Bool(false),
    ));
}

/// An answer with lines that is cut to what fits is small enough.
proof fn lemma_fitted_lines_fit(path: Seq<char>, text: Seq<char>, shown: Seq<char>, start: usize, stop: usize)
    requires
        utf8_len(path) <= MAX_NOTE_PATH_BYTES,
    ensures
        note_fits(fitted(lines_view(path, text, shown, start, stop), "text"@)),
{
    let value = lines_view(path, text, shown, start, stop);
    lemma_lines_names(path, text, shown, start, stop);
    lemma_lines_names(path, text, Seq::empty(), start, stop);
    lemma_lines_base(path, text, start, stop);
    reveal_strlit("text");
    reveal_strlit("start_line");
    reveal_strlit("stop_line");
    reveal_strlit("line_count");
    reveal_strlit("bytes");
    reveal_strlit("truncated");
    assert("text"@.len() == 4 && "start_line"@.len() == 10 && "stop_line"@.len() == 9 && "line_count"@.len() == 10
        && "bytes"@.len() == 5 && "truncated"@.len() == 9);
    assert(shown.take(0) =~= Seq::<char>::empty());
    assert(fields_in(with_beginning(value, "text"@, shown, 0)) =~= fields_in(
        lines_view(path, text, Seq::empty(), start, stop),
    ));
    law_fitted_answer_fits(value, "text"@, shown);
}

/// The refusal of an argument is small.
proof fn lemma_refusal_fits(field: Seq<char>, reason: Seq<char>)
    requires
        quoted_size(field) <= 1000,
        quoted_size(reason) <= 1000,
    ensures
        note_fits(invalid_argument_view(field, reason)),
{
    lemma_name_sizes();
    reveal_strlit("field");
    reveal_strlit("invalid_argument");
    lemma_plain_size("field"@);
    lemma_plain_size("invalid_argument"@);
    let start = JsonView::Object(Map::empty());
    let one = with_field(start, "status"@, JsonView::Text("invalid_argument"@));
    let two = with_field(one, "field"@, JsonView::Text(field));
    lemma_size_with_field_bound(start, "status"@, JsonView::Text("invalid_argument"@));
    lemma_size_with_field_bound(one, "field"@, JsonView::Text(field));
    lemma_size_with_field_bound(two, "reason"@, JsonView::Text(reason));
    assert(invalid_argument_view(field, reason) == with_field(two, "reason"@, JsonView::Text(reason)));
}

/// The refusal of a range of lines is small.
proof fn lemma_range_refusal_fits(arguments: JsonView, line_count: usize)
    ensures
        lines_argument(arguments, line_count) matches Err(error) ==> note_fits(error),
{
    lemma_name_sizes();
    reveal_strlit("must be an integer or null");
    reveal_strlit("must not be zero");
    reveal_strlit("is outside the file");
    reveal_strlit("must not be after stop_line");
    lemma_plain_size("must be an integer or null"@);
    lemma_plain_size("must not be zero"@);
    lemma_plain_size("is outside the file"@);
    lemma_plain_size("must not be after stop_line"@);
    lemma_refusal_fits("start_line"@, "must be an integer or null"@);
    lemma_refusal_fits("start_line"@, "must not be zero"@);
    lemma_refusal_fits("start_line"@, "is outside the file"@);
    lemma_refusal_fits("start_line"@, "must not be after stop_line"@);
    lemma_refusal_fits("stop_line"@, "must be an integer or null"@);
    lemma_refusal_fits("stop_line"@, "must not be zero"@);
    lemma_refusal_fits("stop_line"@, "is outside the file"@);
}

/// Reading a note stays within the limit on results, whatever the note holds and whatever lines are asked
/// for.
pub proof fn law_read_file_fits(arguments: JsonView, path: Seq<char>, contents: Result<Seq<char>, NoteError>)
    requires
        utf8_len(path) <= MAX_NOTE_PATH_BYTES,
    ensures
        note_fits(read_file_answer(arguments, path, contents)),
{
    match contents {
        Err(error) => {
            law_note_error_fits(path, error);
        },
        Ok(text) => {
            if lines_of(text).len() == 0 {
                lemma_fitted_lines_fit(path, text, Seq::empty(), 0, 0);
            } else if let Ok((start, stop)) = lines_argument(arguments, lines_of(text).len() as usize) {
                lemma_fitted_lines_fit(path, text, selected_lines(text, start, stop), start, stop);
            } else {
                lemma_range_refusal_fits(arguments, lines_of(text).len() as usize);
            }
        },
    }
}

/// The refusal of a text that is too large is small.
proof fn lemma_too_large_fits(path: Seq<char>)
    requires
        utf8_len(path) <= MAX_NOTE_PATH_BYTES,
    ensures
        note_fits(note_too_large_view(path)),
{
    lemma_name_sizes();
    lemma_quoted_size_bound(path);
    reveal_strlit("field");
    reveal_strlit("max_bytes");
    reveal_strlit("invalid_argument");
    reveal_strlit("note exceeds the maximum UTF-8 byte size");
    lemma_plain_size("field"@);
    lemma_plain_size("max_bytes"@);
    lemma_plain_size("invalid_argument"@);
    lemma_plain_size("note exceeds the maximum UTF-8 byte size"@);
    let reason = JsonView::Text("note exceeds the maximum UTF-8 byte size"@);
    let start = JsonView::Object(Map::empty());
    let one = with_field(start, "status"@, JsonView::Text("invalid_argument"@));
    let two = with_field(one, "field"@, JsonView::Text("text"@));
    let three = with_field(two, "path"@, JsonView::Text(path));
    let four = with_field(three, "reason"@, reason);
    lemma_size_with_field_bound(start, "status"@, JsonView::Text("invalid_argument"@));
    lemma_size_with_field_bound(one, "field"@, JsonView::Text("text"@));
    lemma_size_with_field_bound(two, "path"@, JsonView::Text(path));
    lemma_size_with_field_bound(three, "reason"@, reason);
    lemma_decimal_size(MAX_NOTE_BYTES as nat);
    lemma_size_with_field_bound(four, "max_bytes"@, unsigned_view(MAX_NOTE_BYTES as u64));
    assert(note_too_large_view(path) == with_field(four, "max_bytes"@, unsigned_view(MAX_NOTE_BYTES as u64)));
}

/// The answers to a write and to an append stay within the limit on results, whatever comes of them.
pub proof fn law_write_answers_fit(
    request: WriteRequestView,
    combined: Seq<char>,
    existing: Result<Option<Seq<char>>, NoteError>,
    outcome: Result<(), NoteError>,
)
    requires
        utf8_len(request.path) <= MAX_NOTE_PATH_BYTES,
    ensures
        note_fits(write_answer(request, outcome)),
        note_fits(append_answer(request, combined, outcome)),
        appended(request, existing) matches Err(answer) ==> note_fits(answer),
{
    lemma_name_sizes();
    lemma_quoted_size_bound(request.path);
    lemma_too_large_fits(request.path);
    if let Err(error) = existing {
        law_note_error_fits(request.path, error);
    }
    if let Err(error) = outcome {
        law_note_error_fits(request.path, error);
    }
    let start = JsonView::Object(Map::empty());
    let one = with_field(start, "status"@, JsonView::Text("ok"@));
    let two = with_field(one, "path"@, JsonView::Text(request.path));
    let size = unsigned_view(utf8_len(request.text) as u64);
    let whole = unsigned_view(utf8_len(combined) as u64);
    let three = with_field(two, "bytes"@, whole);
    lemma_size_with_field_bound(start, "status"@, JsonView::Text("ok"@));
    lemma_size_with_field_bound(one, "path"@, JsonView::Text(request.path));
    lemma_decimal_size((utf8_len(request.text) as u64) as nat);
    lemma_decimal_size((utf8_len(combined) as u64) as nat);
    lemma_size_with_field_bound(two, "bytes"@, size);
    lemma_size_with_field_bound(two, "bytes"@, whole);
    lemma_size_with_field_bound(three, "appended_bytes"@, size);
    if outcome is Ok {
        assert(write_answer(request, outcome) == with_field(two, "bytes"@, size));
        assert(append_answer(request, combined, outcome) == with_field(three, "appended_bytes"@, size));
    }
}

/// The names in the answer of a search differ.
proof fn lemma_search_names(state: SearchStateView)
    ensures
        "matches"@ != "truncated"@,
        "errors"@ != "truncated"@,
        field_of(state.rendered(), "truncated"@) == Some(JsonView::Bool(state.truncated)),
        field_of(state.rendered(), "matches"@) == Some(JsonView::Array(state.matches)),
        fields_in(state.rendered()).dom().finite(),
{
    reveal_strlit("matches");
    reveal_strlit("files_scanned");
    reveal_strlit("files_with_matches");
    reveal_strlit("errors");
    reveal_strlit("truncated");
    assert("matches"@.len() == 7 && "files_scanned"@.len() == 13 && "files_with_matches"@.len() == 18
        && "errors"@.len() == 6 && "truncated"@.len() == 9);
}

/// A search stays within the limit on results, whatever the notes hold.
pub proof fn law_note_search_fits(
    request: SearchRequestView,
    targets: SearchTargetsView,
    contents: Seq<Result<String, NoteError>>,
)
    ensures
        note_fits(search_answer(request, targets, contents)),
{
    let whole = whole_search(request, targets, contents);
    lemma_search_names(whole);
    lemma_name_sizes();
    law_bounded_array_fits(whole.rendered(), "matches"@);
    law_bounded_array_fits(bounded_array(whole.rendered(), "matches"@), "errors"@);
}

/// All lines of a note from `from` on that hold the query.
pub open spec fn matching_lines(path: Seq<char>, lines: Seq<Seq<char>>, query: Seq<char>, from: nat) -> Seq<
    JsonView,
>
    decreases lines.len() - from,
{
    if from >= lines.len() {
        Seq::empty()
    } else if occurs(lines[from as int], query) {
        let (shown, cut) = bounded(lines[from as int], MAX_NOTE_MATCH_TEXT_CHARS);
        seq![match_view(path, from + 1, shown, cut)] + matching_lines(path, lines, query, from + 1)
    } else {
        matching_lines(path, lines, query, from + 1)
    }
}

/// All lines of the first notes that hold the query.
pub open spec fn all_matches(
    files: Seq<NoteFileView>,
    contents: Seq<Result<String, NoteError>>,
    query: Seq<char>,
    count: nat,
) -> Seq<JsonView>
    decreases count,
{
    if count == 0 {
        Seq::empty()
    } else {
        all_matches(files, contents, query, (count - 1) as nat) + (match text_outcome(contents[count - 1]) {
            Ok(text) => matching_lines(files[count - 1].path, lines_of(text), query, 0),
            Err(_) => Seq::empty(),
        })
    }
}

/// What a search takes of the lines of a note are lines that hold the query; all of them, unless it says
/// that something is left out.
proof fn lemma_lines_searched(
    state: SearchStateView,
    path: Seq<char>,
    lines: Seq<Seq<char>>,
    query: Seq<char>,
    max_matches: usize,
    from: nat,
    count: nat,
)
    ensures
        ({
            let after = state.after_lines(path, lines, query, max_matches, from, count).0;
            let all = matching_lines(path, lines, query, from);
            &&& state.truncated ==> after.truncated
            &&& !after.truncated ==> after.matches == state.matches + all
            &&& after.errors == state.errors
            &&& exists|taken: Seq<JsonView>|
                #![trigger taken.is_prefix_of(all)]
                taken.is_prefix_of(all) && after.matches == state.matches + taken
        }),
    decreases lines.len() - from,
{
    let after = state.after_lines(path, lines, query, max_matches, from, count).0;
    let all = matching_lines(path, lines, query, from);
    let nothing = Seq::<JsonView>::empty();
    if from >= lines.len() {
        assert(nothing.is_prefix_of(all));
        assert(state.matches + nothing =~= state.matches);
    } else if !occurs(lines[from as int], query) {
        lemma_lines_searched(state, path, lines, query, max_matches, from + 1, count);
    } else {
        let found = state.with_match(path, from + 1, lines[from as int]);
        if count < max_matches && note_fits(found.rendered()) {
            lemma_lines_searched(found, path, lines, query, max_matches, from + 1, count + 1);
            let rest = matching_lines(path, lines, query, from + 1);
            let (shown, cut) = bounded(lines[from as int], MAX_NOTE_MATCH_TEXT_CHARS);
            let first = match_view(path, from + 1, shown, cut);
            let taken = choose|taken: Seq<JsonView>|
                #![trigger taken.is_prefix_of(rest)]
                taken.is_prefix_of(rest) && after.matches == found.matches + taken;
            assert((seq![first] + taken).is_prefix_of(all));
            assert(found.matches + taken =~= state.matches + (seq![first] + taken));
            assert(found.matches + rest =~= state.matches + all);
        } else {
            assert(nothing.is_prefix_of(all));
            assert(state.matches + nothing =~= state.matches);
        }
    }
}

/// A search that says that nothing was left out shows every line of the notes that holds the query, in
/// the order of the notes and their lines.
pub proof fn law_whole_search_shows_all(
    request: SearchRequestView,
    targets: SearchTargetsView,
    contents: Seq<Result<String, NoteError>>,
)
    requires
        !whole_search(request, targets, contents).truncated,
    ensures
        whole_search(request, targets, contents).matches == all_matches(
            targets.files,
            contents,
            request.query,
            targets.files.len(),
        ),
        targets.file_count <= request.max_files,
{
    lemma_notes_searched(
        search_start(targets.scan_truncated),
        request,
        targets.files,
        contents,
        targets.files.len(),
    );
    assert(Seq::<JsonView>::empty() + all_matches(targets.files, contents, request.query, targets.files.len())
        =~= all_matches(targets.files, contents, request.query, targets.files.len()));
}

/// As for the lines of one note, for those of several.
proof fn lemma_notes_searched(
    state: SearchStateView,
    request: SearchRequestView,
    files: Seq<NoteFileView>,
    contents: Seq<Result<String, NoteError>>,
    count: nat,
)
    ensures
        ({
            let after = state.after_notes(request, files, contents, count);
            &&& state.truncated ==> after.truncated
            &&& !after.truncated ==> after.matches == state.matches + all_matches(
                files,
                contents,
                request.query,
                count,
            )
        }),
    decreases count,
{
    if count > 0 {
        lemma_notes_searched(state, request, files, contents, (count - 1) as nat);
        let before = state.after_notes(request, files, contents, (count - 1) as nat);
        let counted = SearchStateView { scanned: (before.scanned + 1) as u64, ..before };
        let earlier = all_matches(files, contents, request.query, (count - 1) as nat);
        if let Ok(text) = text_outcome(contents[count - 1]) {
            let path = files[count - 1].path;
            lemma_lines_searched(counted, path, lines_of(text), request.query, request.max_matches, 0, 0);
            let more = matching_lines(path, lines_of(text), request.query, 0);
            assert(state.matches + earlier + more =~= state.matches + (earlier + more));
        }
    } else {
        assert(state.matches + Seq::<JsonView>::empty() =~= state.matches);
    }
}

/// Every match that a search shows is a line of one of the notes that holds the query.
pub proof fn law_search_shows_only_matches(
    request: SearchRequestView,
    targets: SearchTargetsView,
    contents: Seq<Result<String, NoteError>>,
    index: int,
)
    requires
        0 <= index < whole_search(request, targets, contents).matches.len(),
    ensures
        all_matches(targets.files, contents, request.query, targets.files.len()).contains(
            whole_search(request, targets, contents).matches[index],
        ),
{
    lemma_only_matches(
        search_start(targets.scan_truncated),
        request,
        targets.files,
        contents,
        targets.files.len(),
        index,
    );
}

/// As above, for the first notes.
proof fn lemma_only_matches(
    state: SearchStateView,
    request: SearchRequestView,
    files: Seq<NoteFileView>,
    contents: Seq<Result<String, NoteError>>,
    count: nat,
    index: int,
)
    requires
        state.matches.len() == 0,
        0 <= index < state.after_notes(request, files, contents, count).matches.len(),
    ensures
        all_matches(files, contents, request.query, count).contains(
            state.after_notes(request, files, contents, count).matches[index],
        ),
    decreases count,
{
    if count > 0 {
        let before = state.after_notes(request, files, contents, (count - 1) as nat);
        let after = state.after_notes(request, files, contents, count);
        let counted = SearchStateView { scanned: (before.scanned + 1) as u64, ..before };
        let earlier = all_matches(files, contents, request.query, (count - 1) as nat);
        let all = all_matches(files, contents, request.query, count);
        if index < before.matches.len() {
            lemma_only_matches(state, request, files, contents, (count - 1) as nat, index);
            let at = choose|at: int| 0 <= at < earlier.len() && earlier[at] == before.matches[index];
            if let Ok(text) = text_outcome(contents[count - 1]) {
                lemma_lines_searched(
                    counted,
                    files[count - 1].path,
                    lines_of(text),
                    request.query,
                    request.max_matches,
                    0,
                    0,
                );
            }
            assert(after.matches[index] == before.matches[index]);
            assert(all[at] == earlier[at]);
        } else if let Ok(text) = text_outcome(contents[count - 1]) {
            let path = files[count - 1].path;
            lemma_lines_searched(counted, path, lines_of(text), request.query, request.max_matches, 0, 0);
            let more = matching_lines(path, lines_of(text), request.query, 0);
            let searched = counted.after_lines(
                path,
                lines_of(text),
                request.query,
                request.max_matches,
                0,
                0,
            ).0;
            let taken = choose|taken: Seq<JsonView>|
                #![trigger taken.is_prefix_of(more)]
                taken.is_prefix_of(more) && searched.matches == counted.matches + taken;
            let at = index - before.matches.len();
            assert(after.matches[index] == taken[at]);
            assert(taken[at] == more[at]);
            assert(all[earlier.len() + at] == more[at]);
        }
    }
}

} // verus!
