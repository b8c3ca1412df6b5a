//! Arguments of the note tools, the order of note files, and the bounds of their answers.

use std::cmp::Ordering;

use vstd::prelude::*;
use vstd::string::*;

use crate::history::count_or_null;
use crate::json::field_of;
use crate::json::fields_in;
use crate::json::items_in;
use crate::json::json_size;
use crate::json::lemma_escaped_size_take;
use crate::json::lemma_object_finite;
use crate::json::lemma_plain_size;
use crate::json::lemma_size_with_field;
use crate::json::quoted_size;
use crate::json::serialized_len;
use crate::json::signed_in;
use crate::json::text_field;
use crate::json::text_in;
use crate::json::unsigned_view;
use crate::json::with_field;
use crate::json::Json;
use crate::json::JsonView;
use crate::limits::count_outcome;
use crate::limits::invalid_argument;
use crate::limits::invalid_argument_view;
use crate::limits::MAX_NOTE_BYTES;
use crate::limits::MAX_NOTE_PATH_BYTES;
use crate::limits::MAX_NOTE_PATH_COMPONENTS;
use crate::limits::MAX_NOTE_RESULT_BYTES;
use crate::note_storage::files_view;
use crate::note_storage::reason_of;
use crate::note_storage::IoFailure;
use crate::note_storage::IoFailureView;
use crate::note_storage::IoKind;
use crate::note_storage::NoteError;
use crate::note_storage::NoteFile;
use crate::note_storage::NoteFileView;
use crate::text::byte_len;
use crate::text::chars_of;
use crate::text::comes_before;
use crate::text::contains_char;
use crate::text::join;
use crate::text::joined;
use crate::text::law_pieces_join;
use crate::text::lemma_text_before_total;
use crate::text::lemma_text_before_transitive;
use crate::text::lemma_utf8_len_bounds;
use crate::text::lemma_utf8_len_concat;
use crate::text::lemma_utf8_len_push;
use crate::text::lemma_utf8_len_take;
use crate::text::opt_view;
use crate::text::pieces;
use crate::text::same_text;
use crate::text::split;
use crate::text::text_before;
use crate::text::text_of;
use crate::text::texts_view;
use crate::text::utf8_len;
use crate::text::width_of;

verus! {

/// One component of a path.
#[derive(Debug)]
pub enum PathComponent {
    Prefix,
    RootDir,
    CurDir,
    ParentDir,
    Normal(String),
}

/// What a `PathComponent` holds.
#[verifier::ext_equal]
pub enum ComponentView {
    Prefix,
    RootDir,
    CurDir,
    ParentDir,
    Normal(Seq<char>),
}

impl View for PathComponent {
    type V = ComponentView;

    open spec fn view(&self) -> ComponentView {
        match self {
            PathComponent::Prefix => ComponentView::Prefix,
            PathComponent::RootDir => ComponentView::RootDir,
            PathComponent::CurDir => ComponentView::CurDir,
            PathComponent::ParentDir => ComponentView::ParentDir,
            PathComponent::Normal(name) => ComponentView::Normal(name@),
        }
    }
}

/// What the components of a path hold.
pub open spec fn components_view(components: Seq<PathComponent>) -> Seq<ComponentView> {
    components.map_values(|component: PathComponent| component@)
}

/// A name that means itself in a path.
pub open spec fn ordinary_name(name: Seq<char>) -> bool {
    name.len() > 0 && name != "."@ && name != ".."@
}

/// The pieces of a path between its separators all mean themselves.
pub open spec fn ordinary_names(names: Seq<Seq<char>>) -> bool {
    forall|i: int| 0 <= i < names.len() ==> ordinary_name(#[trigger] names[i])
}

/// The components that names that mean themselves are.
pub open spec fn normal_components(names: Seq<Seq<char>>) -> Seq<ComponentView> {
    names.map_values(|name: Seq<char>| ComponentView::Normal(name))
}

/// The path starts as one with a drive letter does: some platforms see a prefix in it.
pub open spec fn starts_like_drive(path: Seq<char>) -> bool {
    path.len() >= 2 && path[1] == ':'
}

/// `std::path::Path::components` gives the components of a path. A path of names that mean
/// themselves, without a backslash, has those names for its components on every platform, unless its
/// second character is a colon: then some platforms see a drive letter in front. Of any other path
/// nothing is claimed here: platforms differ in what a prefix and a separator is.
#[verifier::external_body]
fn path_components(path: &str) -> (components: Vec<PathComponent>)
    ensures
        ordinary_names(pieces(path@, '/')) && !path@.contains('\\') && !starts_like_drive(path@)
            ==> components_view(components@) == normal_components(pieces(path@, '/')),
{
    let components = std::path::Path::new(path).components();
    components.map(|component| match component {
        std::path::Component::Prefix(_) => PathComponent::Prefix,
        std::path::Component::RootDir => PathComponent::RootDir,
        std::path::Component::CurDir => PathComponent::CurDir,
        std::path::Component::ParentDir => PathComponent::ParentDir,
        std::path::Component::Normal(name) => PathComponent::Normal(name.to_string_lossy().into_owned()),
    }).collect()
}

/// The path without a look at its components is fit for a note: not too long, and made of not too many
/// names that mean themselves.
pub open spec fn path_refusal(value: Seq<char>) -> Option<Seq<char>> {
    if utf8_len(value) > MAX_NOTE_PATH_BYTES || value.contains('\0') || value.contains('\\') {
        Some("contains an unsafe path"@)
    } else if pieces(value, '/').len() > MAX_NOTE_PATH_COMPONENTS || !ordinary_names(pieces(value, '/')) {
        Some("contains an unsafe path component"@)
    } else {
        None
    }
}

/// All components are names.
pub open spec fn all_normal(components: Seq<PathComponent>) -> bool {
    forall|i: int| 0 <= i < components.len() ==> (#[trigger] components[i]) is Normal
}

/// The path of a note, given the components that the platform sees in it.
pub open spec fn checked_path(
    value: Seq<char>,
    field: Seq<char>,
    allow_empty: bool,
    components: Seq<PathComponent>,
) -> Result<Seq<char>, JsonView> {
    if value.len() == 0 {
        if allow_empty {
            Ok(Seq::empty())
        } else {
            Err(invalid_argument_view(field, "must be a non-empty string"@))
        }
    } else {
        match path_refusal(value) {
            Some(reason) => Err(invalid_argument_view(field, reason)),
            None => if all_normal(components) {
                Ok(value)
            } else {
                Err(invalid_argument_view(field, "must be a safe relative path"@))
            },
        }
    }
}

/// What an outcome with a path holds.
pub open spec fn path_outcome(outcome: Result<String, Json>) -> Result<Seq<char>, JsonView> {
    match outcome {
        Ok(path) => Ok(path@),
        Err(error) => Err(error@),
    }
}

/// Whether all names mean themselves.
pub fn is_ordinary_row(names: &Vec<String>) -> (result: bool)
    ensures
        result == ordinary_names(texts_view(names@)),
{
    let mut index: usize = 0;
    let ghost views = texts_view(names@);
    while index < names.len()
        invariant
            index <= names@.len(),
            views == texts_view(names@),
            forall|i: int| 0 <= i < index ==> ordinary_name(#[trigger] views[i]),
        decreases names@.len() - index,
    {
        let name = names[index].as_str();
        assert(views[index as int] == name@);
        if name.is_empty() || same_text(name, ".") || same_text(name, "..") {
            assert(!ordinary_name(views[index as int]));
            return false;
        }
        index = index + 1;
    }
    true
}

/// Whether all components are names.
fn are_normal(components: &Vec<PathComponent>) -> (result: bool)
    ensures
        result == all_normal(components@),
{
    let mut index: usize = 0;
    while index < components.len()
        invariant
            index <= components@.len(),
            forall|i: int| 0 <= i < index ==> (#[trigger] components@[i]) is Normal,
        decreases components@.len() - index,
    {
        match &components[index] {
            PathComponent::Normal(_) => {},
            _ => {
                return false;
            },
        }
        index = index + 1;
    }
    true
}

/// The path of a note, given the components that the platform sees in it.
pub fn check_path(value: &str, field: &str, allow_empty: bool, components: &Vec<PathComponent>) -> (outcome:
    Result<String, Json>)
    ensures
        path_outcome(outcome) == checked_path(value@, field@, allow_empty, components@),
{
    if value.is_empty() {
        if allow_empty {
            return Ok(String::new());
        }
        return Err(invalid_argument(field, "must be a non-empty string"));
    }
    if byte_len(value) > MAX_NOTE_PATH_BYTES || contains_char(value, '\0') || contains_char(value, '\\') {
        return Err(invalid_argument(field, "contains an unsafe path"));
    }
    let names = split(value, '/');
    assert(texts_view(names@).len() == names@.len());
    if names.len() > MAX_NOTE_PATH_COMPONENTS || !is_ordinary_row(&names) {
        return Err(invalid_argument(field, "contains an unsafe path component"));
    }
    if !are_normal(components) {
        return Err(invalid_argument(field, "must be a safe relative path"));
    }
    Ok(value.to_owned())
}

/// The outcome of checking a path, as far as it does not rest on the platform: a refusal for what the
/// text shows, success where no platform sees more in it, and one of the two otherwise.
pub open spec fn path_checked(
    outcome: Result<Seq<char>, JsonView>,
    value: Seq<char>,
    field: Seq<char>,
    allow_empty: bool,
) -> bool {
    if value.len() == 0 || path_refusal(value) is Some || !starts_like_drive(value) {
        outcome == checked_path(value, field, allow_empty, Seq::empty())
    } else {
        ||| outcome == Ok::<Seq<char>, JsonView>(value)
        ||| outcome == Err::<Seq<char>, JsonView>(
            invalid_argument_view(field, "must be a safe relative path"@),
        )
    }
}

/// The path of a note: relative, not too long, made of names that mean themselves.
pub fn validated_relative_path(value: &str, field: &str, allow_empty: bool) -> (outcome: Result<String, Json>)
    ensures
        path_checked(path_outcome(outcome), value@, field@, allow_empty),
{
    let components = path_components(value);
    proof {
        if value@.len() > 0 && path_refusal(value@) is None && !starts_like_drive(value@) {
            let names = pieces(value@, '/');
            assert(components_view(components@) == normal_components(names));
            assert(components_view(components@).len() == names.len());
            assert forall|i: int| 0 <= i < components@.len() implies (#[trigger] components@[i]) is Normal by {
                assert(components_view(components@)[i] == components@[i]@);
                assert(normal_components(names)[i] == ComponentView::Normal(names[i]));
            }
        }
    }
    check_path(value, field, allow_empty, &components)
}

/// An optional path as an argument: the text that is to be checked, if any.
pub open spec fn path_argument(arguments: JsonView, field: Seq<char>, allow_empty: bool) -> Result<
    Option<Seq<char>>,
    JsonView,
> {
    match field_of(arguments, field) {
        None => Ok(None),
        Some(JsonView::Null) => Ok(None),
        Some(value) => match text_in(value) {
            None => Err(invalid_argument_view(field, "must be a string or null"@)),
            Some(text) => if text.len() == 0 && allow_empty {
                Ok(None)
            } else {
                Ok(Some(text))
            },
        },
    }
}

/// What an outcome with an optional path holds.
pub open spec fn optional_path_outcome(outcome: Result<Option<String>, Json>) -> Result<
    Option<Seq<char>>,
    JsonView,
> {
    match outcome {
        Ok(path) => Ok(opt_view(path)),
        Err(error) => Err(error@),
    }
}

/// The outcome of reading an optional path.
pub open spec fn optional_path_checked(
    outcome: Result<Option<Seq<char>>, JsonView>,
    arguments: JsonView,
    field: Seq<char>,
    allow_empty: bool,
) -> bool {
    match path_argument(arguments, field, allow_empty) {
        Err(error) => outcome == Err::<Option<Seq<char>>, JsonView>(error),
        Ok(None) => outcome == Ok::<Option<Seq<char>>, JsonView>(None),
        Ok(Some(value)) => match outcome {
            Ok(Some(path)) => path_checked(Ok(path), value, field, allow_empty),
            Ok(None) => false,
            Err(error) => path_checked(Err(error), value, field, allow_empty),
        },
    }
}

/// The path in the argument `field`, none where it is absent, null or, if that is allowed, empty.
pub fn optional_path(arguments: &Json, field: &str, allow_empty: bool) -> (outcome: Result<Option<String>, Json>)
    ensures
        optional_path_checked(optional_path_outcome(outcome), arguments@, field@, allow_empty),
{
    let value = match arguments.get(field) {
        None => {
            return Ok(None);
        },
        Some(value) => value,
    };
    if value.is_null() {
        return Ok(None);
    }
    let text = match value.as_str() {
        None => {
            return Err(invalid_argument(field, "must be a string or null"));
        },
        Some(text) => text,
    };
    if text.is_empty() && allow_empty {
        return Ok(None);
    }
    match validated_relative_path(text, field, allow_empty) {
        Ok(path) => Ok(Some(path)),
        Err(error) => Err(error),
    }
}

/// The text of a path of names, `/` between them; none where a component is no name.
pub open spec fn virtual_text(components: Seq<PathComponent>) -> Option<Seq<char>> {
    if all_normal(components) {
        Some(
            joined(
                components.map_values(|component: PathComponent| component->Normal_0@),
                "/"@,
            ),
        )
    } else {
        None
    }
}

/// The text of a path of names, `/` between them.
pub fn virtual_path(components: &Vec<PathComponent>) -> (outcome: Result<String, IoFailure>)
    ensures
        match outcome {
            Ok(path) => virtual_text(components@) == Some(path@),
            Err(failure) => virtual_text(components@) is None && failure@ == (IoFailureView {
                kind: IoKind::InvalidInput,
                message: "unsafe note path"@,
            }),
        },
{
    let mut names: Vec<String> = Vec::new();
    let mut index: usize = 0;
    while index < components.len()
        invariant
            index <= components@.len(),
            names@.len() == index,
            forall|i: int| 0 <= i < index ==> (#[trigger] components@[i]) is Normal,
            forall|i: int| 0 <= i < index ==> (#[trigger] names@[i])@ == components@[i]->Normal_0@,
        decreases components@.len() - index,
    {
        match &components[index] {
            PathComponent::Normal(name) => {
                names.push(name.clone());
            },
            _ => {
                assert(!(components@[index as int] is Normal));
                return Err(IoFailure::new(IoKind::InvalidInput, "unsafe note path"));
            },
        }
        index = index + 1;
    }
    assert(texts_view(names@) =~= components@.map_values(|component: PathComponent| component->Normal_0@));
    Ok(join(&names, "/"))
}

/// A note's path that was checked comes back as it was from the names that it is made of, the empty one
/// from none.
pub proof fn law_checked_path_comes_back(
    value: Seq<char>,
    field: Seq<char>,
    allow_empty: bool,
    path: Seq<char>,
    components: Seq<PathComponent>,
)
    requires
        path_checked(Ok(path), value, field, allow_empty),
        path.len() == 0 ==> components.len() == 0,
        path.len() > 0 ==> components_view(components) == normal_components(pieces(path, '/')),
    ensures
        virtual_text(components) == Some(value),
{
    assert(path =~= value);
    let names = if path.len() == 0 {
        Seq::empty()
    } else {
        pieces(path, '/')
    };
    assert(components.len() == components_view(components).len());
    assert forall|i: int| 0 <= i < components.len() implies (#[trigger] components[i]) is Normal
        && components[i]->Normal_0@ == names[i] by {
        assert(components_view(components)[i] == components[i]@);
        assert(normal_components(names)[i] == ComponentView::Normal(names[i]));
    }
    assert(components.map_values(|component: PathComponent| component->Normal_0@) =~= names);
    reveal_strlit("/");
    assert("/"@ =~= seq!['/']);
    law_pieces_join(path, '/');
}

/// A point in time of `std`.
#[verifier::external_type_specification]
#[verifier::external_body]
pub struct ExSystemTime(std::time::SystemTime);

/// Whole seconds from the Unix epoch to a point in time, none before it.
pub uninterp spec fn seconds_after_epoch(time: std::time::SystemTime) -> Option<u64>;

/// `std::time::SystemTime::duration_since`, from the Unix epoch on: the whole seconds of the duration,
/// none for a time before the epoch.
#[verifier::external_body]
fn epoch_seconds(time: std::time::SystemTime) -> (seconds: Option<u64>)
    ensures
        seconds == seconds_after_epoch(time),
{
    let since = time.duration_since(std::time::UNIX_EPOCH);
    since.ok().map(|duration| duration.as_secs())
}

/// Whole seconds after the Unix epoch, zero where no later time is known.
pub open spec fn seconds_or_zero(time: Option<std::time::SystemTime>) -> u64 {
    match time {
        Some(time) => match seconds_after_epoch(time) {
            Some(seconds) => seconds,
            None => 0,
        },
        None => 0,
    }
}

/// Whole seconds after the Unix epoch, zero where no later time is known.
pub fn timestamp(time: Option<std::time::SystemTime>) -> (seconds: u64)
    ensures
        seconds == seconds_or_zero(time),
{
    match time {
        Some(time) => match epoch_seconds(time) {
            Some(seconds) => seconds,
            None => 0,
        },
        None => 0,
    }
}

/// What note files are listed by.
#[derive(Clone, Copy, Debug, PartialEq, Eq, Structural)]
pub enum FileOrder {
    Name,
    CreatedAt,
    UpdatedAt,
}

/// The order that the arguments ask for.
pub open spec fn file_order_of(arguments: JsonView) -> Result<FileOrder, JsonView> {
    match text_field(arguments, "file_order_by"@) {
        None => Ok(FileOrder::Name),
        Some(text) => if text == "name"@ {
            Ok(FileOrder::Name)
        } else if text == "created_at"@ {
            Ok(FileOrder::CreatedAt)
        } else if text == "updated_at"@ {
            Ok(FileOrder::UpdatedAt)
        } else {
            Err(invalid_argument_view("file_order_by"@, "must be name, created_at, or updated_at"@))
        },
    }
}

/// What an outcome with an order holds.
pub open spec fn order_outcome(outcome: Result<FileOrder, Json>) -> Result<FileOrder, JsonView> {
    match outcome {
        Ok(order) => Ok(order),
        Err(error) => Err(error@),
    }
}

/// The order that the arguments ask for.
pub fn parse_file_order(arguments: &Json) -> (outcome: Result<FileOrder, Json>)
    ensures
        order_outcome(outcome) == file_order_of(arguments@),
{
    match arguments.text_at("file_order_by") {
        None => Ok(FileOrder::Name),
        Some(text) => {
            if same_text(text, "name") {
                Ok(FileOrder::Name)
            } else if same_text(text, "created_at") {
                Ok(FileOrder::CreatedAt)
            } else if same_text(text, "updated_at") {
                Ok(FileOrder::UpdatedAt)
            } else {
                Err(invalid_argument("file_order_by", "must be name, created_at, or updated_at"))
            }
        },
    }
}

/// The line that an integer names: from the first on where it is positive, from the last back where it
/// is negative.
pub open spec fn named_line(value: int, line_count: nat) -> int {
    if value < 0 {
        line_count + 1 + value
    } else {
        value
    }
}

/// The line in the argument `field`, its default where it is absent or null.
pub open spec fn line_argument(
    arguments: JsonView,
    field: Seq<char>,
    default: usize,
    line_count: usize,
) -> Result<usize, JsonView> {
    match field_of(arguments, field) {
        None => Ok(default),
        Some(JsonView::Null) => Ok(default),
        Some(value) => match signed_in(value) {
            None => Err(invalid_argument_view(field, "must be an integer or null"@)),
            Some(number) => if number == 0 {
                Err(invalid_argument_view(field, "must not be zero"@))
            } else if 1 <= named_line(number as int, line_count as nat) <= line_count {
                Ok(named_line(number as int, line_count as nat) as usize)
            } else {
                Err(invalid_argument_view(field, "is outside the file"@))
            },
        },
    }
}

/// The line in the argument `field`.
pub fn line_number(arguments: &Json, field: &str, default: usize, line_count: usize) -> (outcome: Result<
    usize,
    Json,
>)
    ensures
        count_outcome(outcome) == line_argument(arguments@, field@, default, line_count),
{
    let value = match arguments.get(field) {
        None => {
            return Ok(default);
        },
        Some(value) => value,
    };
    if value.is_null() {
        return Ok(default);
    }
    let number: i64 = match value.as_i64() {
        None => {
            return Err(invalid_argument(field, "must be an integer or null"));
        },
        Some(number) => number,
    };
    if number == 0 {
        return Err(invalid_argument(field, "must not be zero"));
    }
    let count: i128 = line_count as i128;
    let line: i128 = if number < 0 {
        count + 1 + number as i128
    } else {
        number as i128
    };
    if line < 1 || line > count {
        return Err(invalid_argument(field, "is outside the file"));
    }
    Ok(line as usize)
}

/// The first and the last line that the arguments ask for.
pub open spec fn lines_argument(arguments: JsonView, line_count: usize) -> Result<(usize, usize), JsonView> {
    match line_argument(arguments, "start_line"@, 1, line_count) {
        Err(error) => Err(error),
        Ok(start) => {
            let last = if line_count >= start {
                line_count
            } else {
                start
            };
            match line_argument(arguments, "stop_line"@, last, line_count) {
                Err(error) => Err(error),
                Ok(stop) => if start > stop {
                    Err(invalid_argument_view("start_line"@, "must not be after stop_line"@))
                } else {
                    Ok((start, stop))
                },
            }
        },
    }
}

/// What an outcome with a range of lines holds.
pub open spec fn range_outcome(outcome: Result<(usize, usize), Json>) -> Result<(usize, usize), JsonView> {
    match outcome {
        Ok(range) => Ok(range),
        Err(error) => Err(error@),
    }
}

/// The first and the last line that the arguments ask for.
pub fn line_range(arguments: &Json, line_count: usize) -> (outcome: Result<(usize, usize), Json>)
    ensures
        range_outcome(outcome) == lines_argument(arguments@, line_count),
{
    let start: usize = match line_number(arguments, "start_line", 1, line_count) {
        Ok(start) => start,
        Err(error) => {
            return Err(error);
        },
    };
    let last: usize = if line_count >= start {
        line_count
    } else {
        start
    };
    let stop: usize = match line_number(arguments, "stop_line", last, line_count) {
        Ok(stop) => stop,
        Err(error) => {
            return Err(error);
        },
    };
    if start > stop {
        return Err(invalid_argument("start_line", "must not be after stop_line"));
    }
    Ok((start, stop))
}

/// `left` comes before `right`: by time where that is asked for, then by name.
pub open spec fn file_before(left: NoteFileView, right: NoteFileView, order: FileOrder) -> bool {
    match order {
        FileOrder::Name => text_before(left.path, right.path),
        FileOrder::CreatedAt => left.created_at < right.created_at || (left.created_at == right.created_at
            && text_before(left.path, right.path)),
        FileOrder::UpdatedAt => left.updated_at < right.updated_at || (left.updated_at == right.updated_at
            && text_before(left.path, right.path)),
    }
}

/// `left` is listed before `right`.
pub open spec fn listed_before(
    left: NoteFileView,
    right: NoteFileView,
    order: FileOrder,
    descending: bool,
) -> bool {
    if descending {
        file_before(right, left, order)
    } else {
        file_before(left, right, order)
    }
}

/// Whether `left` comes before `right`.
fn is_file_before(left: &NoteFile, right: &NoteFile, order: FileOrder) -> (before: bool)
    ensures
        before == file_before(left@, right@, order),
{
    match order {
        FileOrder::Name => comes_before(left.path.as_str(), right.path.as_str()),
        FileOrder::CreatedAt => left.created_at < right.created_at || (left.created_at == right.created_at
            && comes_before(left.path.as_str(), right.path.as_str())),
        FileOrder::UpdatedAt => left.updated_at < right.updated_at || (left.updated_at == right.updated_at
            && comes_before(left.path.as_str(), right.path.as_str())),
    }
}

/// How two files are listed.
pub fn compare_files(left: &NoteFile, right: &NoteFile, order: FileOrder, descending: bool) -> (ordering:
    Ordering)
    ensures
        ordering == (if listed_before(left@, right@, order, descending) {
            Ordering::Less
        } else if listed_before(right@, left@, order, descending) {
            Ordering::Greater
        } else {
            Ordering::Equal
        }),
{
    proof {
        lemma_file_before_one_way(left@, right@, order);
    }
    if is_file_before(left, right, order) {
        if descending {
            Ordering::Greater
        } else {
            Ordering::Less
        }
    } else if is_file_before(right, left, order) {
        if descending {
            Ordering::Less
        } else {
            Ordering::Greater
        }
    } else {
        Ordering::Equal
    }
}

/// Of two files at most one comes before the other.
proof fn lemma_file_before_one_way(left: NoteFileView, right: NoteFileView, order: FileOrder)
    ensures
        !(file_before(left, right, order) && file_before(right, left, order)),
{
    lemma_text_before_total(left.path, right.path);
}

/// Files that do not come before each other's neighbours keep their places: the order is transitive in
/// what it leaves behind.
proof fn lemma_not_before_transitive(a: NoteFileView, b: NoteFileView, c: NoteFileView, order: FileOrder)
    requires
        !file_before(b, a, order),
        !file_before(c, b, order),
    ensures
        !file_before(c, a, order),
{
    lemma_text_before_total(a.path, b.path);
    lemma_text_before_total(b.path, c.path);
    lemma_text_before_total(a.path, c.path);
    if text_before(a.path, b.path) && text_before(b.path, c.path) {
        lemma_text_before_transitive(a.path, b.path, c.path);
    }
}

/// Whether `left` is listed before `right`.
fn is_listed_before(left: &NoteFile, right: &NoteFile, order: FileOrder, descending: bool) -> (before: bool)
    ensures
        before == listed_before(left@, right@, order, descending),
{
    match compare_files(left, right, order, descending) {
        Ordering::Less => true,
        _ => false,
    }
}

/// A listed row with one more file, behind those that it is not listed before.
pub open spec fn insert_listed(
    listed: Seq<NoteFileView>,
    file: NoteFileView,
    order: FileOrder,
    descending: bool,
) -> Seq<NoteFileView>
    decreases listed.len(),
{
    if listed.len() > 0 && listed_before(file, listed.last(), order, descending) {
        insert_listed(listed.drop_last(), file, order, descending).push(listed.last())
    } else {
        listed.push(file)
    }
}

/// The files as they are listed; files that are equal in the order keep theirs.
pub open spec fn listed_files(files: Seq<NoteFileView>, order: FileOrder, descending: bool) -> Seq<NoteFileView>
    decreases files.len(),
{
    if files.len() == 0 {
        Seq::empty()
    } else {
        insert_listed(listed_files(files.drop_last(), order, descending), files.last(), order, descending)
    }
}

/// A file goes to the first place behind which all others are listed after it.
proof fn lemma_insert_listed(
    listed: Seq<NoteFileView>,
    file: NoteFileView,
    order: FileOrder,
    descending: bool,
    slot: int,
)
    requires
        0 <= slot <= listed.len(),
        forall|i: int| slot <= i < listed.len() ==> listed_before(file, #[trigger] listed[i], order, descending),
        slot > 0 ==> !listed_before(file, listed[slot - 1], order, descending),
    ensures
        insert_listed(listed, file, order, descending) == listed.insert(slot, file),
    decreases listed.len(),
{
    if slot < listed.len() {
        assert(listed_before(file, listed[listed.len() - 1], order, descending));
        lemma_insert_listed(listed.drop_last(), file, order, descending, slot);
        assert(listed.drop_last().insert(slot, file).push(listed.last()) =~= listed.insert(slot, file));
    } else {
        assert(listed.push(file) =~= listed.insert(slot, file));
    }
}

/// The files as they are listed.
pub fn sort_files(files: Vec<NoteFile>, order: FileOrder, descending: bool) -> (listed: Vec<NoteFile>)
    ensures
        files_view(listed@) == listed_files(files_view(files@), order, descending),
{
    let ghost all = files_view(files@);
    let mut rest = files;
    let mut listed: Vec<NoteFile> = Vec::new();
    let ghost mut done: int = 0;
    assert(all.skip(0) =~= all);
    assert(all.take(0) =~= Seq::<NoteFileView>::empty());
    assert(files_view(listed@) =~= listed_files(all.take(0), order, descending));
    while rest.len() > 0
        invariant
            0 <= done <= all.len(),
            files_view(rest@) == all.skip(done),
            files_view(listed@) == listed_files(all.take(done), order, descending),
        decreases rest@.len(),
    {
        let ghost before = rest@;
        let file = rest.remove(0);
        proof {
            assert(files_view(before).len() == before.len());
            assert(all.skip(done)[0] == all[done]);
            assert(files_view(before)[0] == before[0]@);
            assert(files_view(rest@) =~= files_view(before).skip(1));
            assert(files_view(rest@) =~= all.skip(done + 1));
            assert(all.take(done + 1).drop_last() =~= all.take(done));
            assert(all.take(done + 1).last() == file@);
        }
        let mut slot: usize = listed.len();
        let ghost views = files_view(listed@);
        while slot > 0 && is_listed_before(&file, &listed[slot - 1], order, descending)
            invariant
                slot <= listed@.len(),
                views == files_view(listed@),
                forall|i: int|
                    slot <= i < views.len() ==> listed_before(file@, #[trigger] views[i], order, descending),
            decreases slot,
        {
            assert(views[slot - 1] == listed@[slot - 1]@);
            slot = slot - 1;
        }
        proof {
            let at = slot as int;
            if at > 0 {
                assert(views[at - 1] == listed@[at - 1]@);
            }
            lemma_insert_listed(views, file@, order, descending, at);
            assert(files_view(listed@.insert(at, file)) =~= views.insert(at, file@));
        }
        listed.insert(slot, file);
        proof {
            done = done + 1;
        }
    }
    assert(all.take(done) =~= all) by {
        assert(all.skip(done).len() == 0);
    }
    listed
}

/// Inserting into a row that is in order keeps it in order, and keeps its members.
proof fn lemma_insert_keeps_order(
    listed: Seq<NoteFileView>,
    file: NoteFileView,
    order: FileOrder,
    descending: bool,
)
    requires
        in_order(listed, order, descending),
    ensures
        in_order(insert_listed(listed, file, order, descending), order, descending),
        insert_listed(listed, file, order, descending).to_multiset() == listed.to_multiset().insert(file),
        insert_listed(listed, file, order, descending).len() == listed.len() + 1,
        forall|i: int|
            0 <= i < listed.len() + 1 ==> #[trigger] insert_listed(listed, file, order, descending)[i] == file
                || listed.contains(insert_listed(listed, file, order, descending)[i]),
    decreases listed.len(),
{
    broadcast use vstd::seq_lib::group_to_multiset_ensures;

    let after = insert_listed(listed, file, order, descending);
    if listed.len() > 0 && listed_before(file, listed.last(), order, descending) {
        let rest = listed.drop_last();
        lemma_insert_keeps_order(rest, file, order, descending);
        let inner = insert_listed(rest, file, order, descending);
        assert(listed =~= rest.push(listed.last()));
        assert forall|i: int| 0 <= i < after.len() implies #[trigger] after[i] == file || listed.contains(after[i]) by {
            if i < rest.len() + 1 {
                assert(inner[i] == file || rest.contains(inner[i]));
                if inner[i] != file {
                    let k = choose|k: int| 0 <= k < rest.len() && rest[k] == inner[i];
                    assert(listed[k] == inner[i]);
                }
            } else {
                assert(listed[listed.len() - 1] == after[i]);
            }
        }
        assert forall|i: int, j: int| 0 <= i < j < after.len() implies !listed_before(
            #[trigger] after[j],
            #[trigger] after[i],
            order,
            descending,
        ) by {
            if j == after.len() - 1 {
                assert(after[j] == listed.last());
                assert(after[i] == inner[i]);
                if inner[i] == file {
                    lemma_file_before_one_way(file, listed.last(), order);
                } else {
                    assert(rest.contains(inner[i]));
                    let k = choose|k: int| 0 <= k < rest.len() && rest[k] == inner[i];
                    assert(listed[k] == inner[i]);
                    assert(!listed_before(listed[listed.len() - 1], listed[k], order, descending));
                }
            } else {
                assert(after[i] == inner[i]);
                assert(after[j] == inner[j]);
            }
        }
    } else {
        assert forall|i: int| 0 <= i < after.len() implies #[trigger] after[i] == file || listed.contains(after[i]) by {
            if i < listed.len() {
                assert(listed[i] == after[i]);
            }
        }
        assert forall|i: int, j: int| 0 <= i < j < after.len() implies !listed_before(
            #[trigger] after[j],
            #[trigger] after[i],
            order,
            descending,
        ) by {
            if j == listed.len() {
                let last = listed[listed.len() - 1];
                assert(after[i] == listed[i]);
                if i < listed.len() - 1 {
                    assert(!listed_before(last, listed[i], order, descending));
                    if descending {
                        lemma_not_before_transitive(file, last, listed[i], order);
                    } else {
                        lemma_not_before_transitive(listed[i], last, file, order);
                    }
                }
            } else {
                assert(after[i] == listed[i]);
                assert(after[j] == listed[j]);
            }
        }
    }
}

/// No file of the row is listed before an earlier one.
pub open spec fn in_order(listed: Seq<NoteFileView>, order: FileOrder, descending: bool) -> bool {
    forall|i: int, j: int|
        0 <= i < j < listed.len() ==> !listed_before(
            #[trigger] listed[j],
            #[trigger] listed[i],
            order,
            descending,
        )
}

/// A listing holds the same files, in order.
pub proof fn law_listing_is_in_order(files: Seq<NoteFileView>, order: FileOrder, descending: bool)
    ensures
        in_order(listed_files(files, order, descending), order, descending),
        listed_files(files, order, descending).to_multiset() == files.to_multiset(),
        listed_files(files, order, descending).len() == files.len(),
    decreases files.len(),
{
    broadcast use vstd::seq_lib::group_to_multiset_ensures;

    if files.len() > 0 {
        law_listing_is_in_order(files.drop_last(), order, descending);
        lemma_insert_keeps_order(
            listed_files(files.drop_last(), order, descending),
            files.last(),
            order,
            descending,
        );
        assert(files =~= files.drop_last().push(files.last()));
    }
}

/// What a listing says of a file.
pub open spec fn file_value_view(file: NoteFileView) -> JsonView {
    JsonView::Object(
        map![
            "path"@ => JsonView::Text(file.path),
            "bytes"@ => unsigned_view(file.bytes),
            "lines"@ => count_or_null(file.lines),
            "created_at"@ => unsigned_view(file.created_at),
            "updated_at"@ => unsigned_view(file.updated_at),
        ],
    )
}

/// What a listing says of a file.
pub fn file_value(file: &NoteFile) -> (value: Json)
    ensures
        value@ == file_value_view(file@),
{
    let mut value = Json::object();
    value.set("path", Json::text(file.path.as_str()));
    value.set("bytes", Json::unsigned(file.bytes));
    value.set(
        "lines",
        match file.lines {
            Some(count) => Json::count(count),
            None => Json::Null,
        },
    );
    value.set("created_at", Json::unsigned(file.created_at));
    value.set("updated_at", Json::unsigned(file.updated_at));
    value
}

/// The longest beginning of a text that has at most `budget` bytes.
pub open spec fn byte_prefix(text: Seq<char>, budget: nat) -> Seq<char>
    decreases text.len(),
{
    if text.len() == 0 || utf8_len(text) <= budget {
        text
    } else {
        byte_prefix(text.drop_last(), budget)
    }
}

/// How many of `maximum` bytes the marker of a cut text leaves.
pub open spec fn marked_budget(maximum: usize) -> nat {
    if maximum >= utf8_len("\n[truncated]"@) {
        (maximum - utf8_len("\n[truncated]"@)) as nat
    } else {
        0
    }
}

/// A text of at most `maximum` bytes, and whether it was cut; a cut text ends in a marker.
pub open spec fn bounded(text: Seq<char>, maximum: usize) -> (Seq<char>, bool) {
    if utf8_len(text) <= maximum {
        (text, false)
    } else {
        (byte_prefix(text, marked_budget(maximum)) + "\n[truncated]"@, true)
    }
}

/// A beginning that fits where one more character does not is the longest that fits.
proof fn lemma_byte_prefix(text: Seq<char>, budget: nat, count: int)
    requires
        0 <= count < text.len(),
        utf8_len(text.take(count)) <= budget,
        utf8_len(text.take(count + 1)) > budget,
    ensures
        byte_prefix(text, budget) == text.take(count),
    decreases text.len(),
{
    lemma_utf8_len_take(text, count + 1, text.len() as int);
    assert(text.take(text.len() as int) =~= text);
    if count < text.len() - 1 {
        assert(text.drop_last().take(count) =~= text.take(count));
        assert(text.drop_last().take(count + 1) =~= text.take(count + 1));
        lemma_byte_prefix(text.drop_last(), budget, count);
    } else {
        assert(text.drop_last() =~= text.take(count));
        assert(byte_prefix(text.drop_last(), budget) == text.drop_last());
    }
}

/// The longest beginning of a text that has at most `budget` bytes.
fn cut_to_bytes(text: &str, budget: usize) -> (prefix: String)
    ensures
        prefix@ == byte_prefix(text@, budget as nat),
{
    let chars = chars_of(text);
    let mut used: usize = 0;
    let mut count: usize = 0;
    assert(text@.take(0) =~= Seq::<char>::empty());
    while count < chars.len()
        invariant
            chars@ == text@,
            count <= chars@.len(),
            used == utf8_len(text@.take(count as int)),
            used <= budget,
        decreases chars@.len() - count,
    {
        let width: usize = width_of(chars[count]);
        proof {
            assert(text@.take(count + 1) =~= text@.take(count as int).push(chars@[count as int]));
            lemma_utf8_len_push(text@.take(count as int), chars@[count as int]);
        }
        if width > budget - used {
            proof {
                lemma_byte_prefix(text@, budget as nat, count as int);
            }
            let prefix = text_of(&chars, 0, count);
            assert(prefix@ =~= text@.take(count as int));
            return prefix;
        }
        used = used + width;
        count = count + 1;
    }
    assert(text@.take(count as int) =~= text@);
    text.to_owned()
}

/// A text of at most `maximum` bytes, and whether it was cut.
pub fn bounded_text(text: &str, maximum_bytes: usize) -> (result: (String, bool))
    ensures
        (result.0@, result.1) == bounded(text@, maximum_bytes),
{
    if byte_len(text) <= maximum_bytes {
        return (text.to_owned(), false);
    }
    let marker = "\n[truncated]";
    let reserved: usize = byte_len(marker);
    let budget: usize = if maximum_bytes >= reserved {
        maximum_bytes - reserved
    } else {
        0
    };
    let mut output = cut_to_bytes(text, budget);
    output.append(marker);
    (output, true)
}

/// The longest beginning fits, as far as anything does.
proof fn lemma_byte_prefix_fits(text: Seq<char>, budget: nat)
    ensures
        utf8_len(byte_prefix(text, budget)) <= budget,
        byte_prefix(text, budget).is_prefix_of(text),
    decreases text.len(),
{
    if text.len() == 0 {
        lemma_utf8_len_bounds(text);
    } else if utf8_len(text) > budget {
        lemma_byte_prefix_fits(text.drop_last(), budget);
        assert(byte_prefix(text, budget).is_prefix_of(text));
    }
}

/// A bounded text keeps to its bound, as long as the bound has room for the marker of a cut text. It is
/// the text itself, or a beginning of it with the marker.
pub proof fn law_bounded_text_keeps_to_its_bound(text: Seq<char>, maximum: usize)
    requires
        maximum >= utf8_len("\n[truncated]"@),
    ensures
        utf8_len(bounded(text, maximum).0) <= maximum,
        !bounded(text, maximum).1 ==> bounded(text, maximum).0 == text,
        bounded(text, maximum).1 ==> exists|kept: Seq<char>|
            #![trigger kept.is_prefix_of(text)]
            kept.is_prefix_of(text) && bounded(text, maximum).0 == kept + "\n[truncated]"@,
{
    let budget = marked_budget(maximum);
    lemma_byte_prefix_fits(text, budget);
    lemma_utf8_len_concat(byte_prefix(text, budget), "\n[truncated]"@);
}

/// The value with a beginning of a text in the field `field`.
pub open spec fn with_beginning(value: JsonView, field: Seq<char>, text: Seq<char>, count: int) -> JsonView {
    with_field(value, field, JsonView::Text(text.take(count)))
}

/// The answer is small enough.
pub open spec fn note_fits(value: JsonView) -> bool {
    json_size(value) <= MAX_NOTE_RESULT_BYTES
}

/// How many of the first `count` characters fit: as many as do, or none.
pub open spec fn fitting_count(value: JsonView, field: Seq<char>, text: Seq<char>, count: nat) -> nat
    decreases count,
{
    if count == 0 || note_fits(with_beginning(value, field, text, count as int)) {
        count
    } else {
        fitting_count(value, field, text, (count - 1) as nat)
    }
}

/// The answer with as much of the text in the field `field` as fits.
pub open spec fn fitted(value: JsonView, field: Seq<char>) -> JsonView {
    match text_field(value, field) {
        Some(text) => if note_fits(value) {
            value
        } else {
            with_field(
                with_beginning(value, field, text, fitting_count(value, field, text, text.len()) as int),
                "truncated"@,
                JsonView::Bool(true),
            )
        },
        None => value,
    }
}

/// A longer beginning makes the answer no smaller.
proof fn lemma_beginning_size(value: JsonView, field: Seq<char>, text: Seq<char>, n: int, m: int)
    requires
        value is Object,
        fields_in(value).dom().finite(),
        0 <= n <= m <= text.len(),
    ensures
        json_size(with_beginning(value, field, text, n)) <= json_size(with_beginning(value, field, text, m)),
{
    lemma_size_with_field(value, field, JsonView::Text(text.take(n)));
    lemma_size_with_field(value, field, JsonView::Text(text.take(m)));
    lemma_escaped_size_take(text, n, m);
}

/// A beginning that fits where the next one does not is as much as fits.
proof fn lemma_fitting_count(value: JsonView, field: Seq<char>, text: Seq<char>, total: nat, count: nat)
    requires
        value is Object,
        fields_in(value).dom().finite(),
        count <= total <= text.len(),
        count > 0 ==> note_fits(with_beginning(value, field, text, count as int)),
        count < total ==> !note_fits(with_beginning(value, field, text, (count + 1) as int)),
    ensures
        fitting_count(value, field, text, total) == count,
    decreases total,
{
    if count < total {
        lemma_beginning_size(value, field, text, (count + 1) as int, total as int);
        lemma_fitting_count(value, field, text, (total - 1) as nat, count);
    }
}

/// Values that differ in one field alone are the same once that field is set.
proof fn lemma_set_again(left: JsonView, right: JsonView, field: Seq<char>, value: JsonView)
    requires
        with_field(left, field, JsonView::Null) == with_field(right, field, JsonView::Null),
    ensures
        with_field(left, field, value) == with_field(right, field, value),
        with_field(with_field(left, field, value), field, JsonView::Null) == with_field(
            right,
            field,
            JsonView::Null,
        ),
{
    let a = fields_in(left).insert(field, JsonView::Null);
    let b = fields_in(right).insert(field, JsonView::Null);
    assert(a == b);
    assert(a.insert(field, value) =~= fields_in(left).insert(field, value));
    assert(b.insert(field, value) =~= fields_in(right).insert(field, value));
    assert(fields_in(left).insert(field, value).insert(field, JsonView::Null) =~= b);
}

/// The answer with as much of the text in the field `field` as fits: the largest number of characters is
/// found by halving.
pub fn fit_text_field(value: Json, field: &str) -> (answer: Json)
    ensures
        answer@ == fitted(value@, field@),
{
    if serialized_len(&value) <= MAX_NOTE_RESULT_BYTES {
        return value;
    }
    let text: String = match value.text_at(field) {
        Some(text) => text.to_owned(),
        None => {
            return value;
        },
    };
    let ghost given = value@;
    proof {
        lemma_object_finite(&value);
    }
    let chars = chars_of(text.as_str());
    let total: usize = chars.len();
    let mut result = value;
    let mut low: usize = 0;
    let mut high: usize = total;
    let mut best: usize = 0;
    while low <= high
        invariant_except_break
            low <= total + 1,
            high <= total,
            low > 0 ==> best == low - 1,
            low == 0 ==> best == 0,
            low <= high + 1,
            high < total ==> !note_fits(with_beginning(given, field@, text@, high + 1)),
        invariant
            given is Object,
            fields_in(given).dom().finite(),
            chars@ == text@,
            total == chars@.len(),
            best <= total,
            best > 0 ==> note_fits(with_beginning(given, field@, text@, best as int)),
            result@ is Object,
            with_field(result@, field@, JsonView::Null) == with_field(given, field@, JsonView::Null),
        ensures
            best < total ==> !note_fits(with_beginning(given, field@, text@, best + 1)),
        decreases high + 1 - low,
    {
        let middle: usize = low + (high - low) / 2;
        let candidate = text_of(&chars, 0, middle);
        assert(candidate@ =~= text@.take(middle as int));
        proof {
            lemma_set_again(result@, given, field@, JsonView::Text(candidate@));
        }
        result.set(field, Json::Text(candidate));
        if serialized_len(&result) <= MAX_NOTE_RESULT_BYTES {
            best = middle;
            if middle == total {
                break;
            }
            low = middle + 1;
        } else if middle == 0 {
            proof {
                if best < total {
                    lemma_beginning_size(given, field@, text@, 0, best + 1);
                }
            }
            break;
        } else {
            high = middle - 1;
        }
    }
    proof {
        lemma_fitting_count(given, field@, text@, total as nat, best as nat);
    }
    let kept = text_of(&chars, 0, best);
    assert(kept@ =~= text@.take(best as int));
    proof {
        lemma_set_again(result@, given, field@, JsonView::Text(kept@));
    }
    result.set(field, Json::Text(kept));
    result.set("truncated", Json::Bool(true));
    result
}

/// Of a text that is too large for its answer the longest beginning is kept: every longer one is too
/// large.
pub proof fn law_fitted_text_is_longest(value: JsonView, field: Seq<char>, text: Seq<char>, longer: int)
    requires
        value is Object,
        fields_in(value).dom().finite(),
        fitting_count(value, field, text, text.len()) < longer <= text.len(),
    ensures
        !note_fits(with_beginning(value, field, text, longer)),
{
    lemma_fitting_count_bounds(value, field, text, text.len(), longer);
}

/// What does not fit, and what does.
proof fn lemma_fitting_count_bounds(value: JsonView, field: Seq<char>, text: Seq<char>, total: nat, longer: int)
    requires
        total <= text.len(),
    ensures
        fitting_count(value, field, text, total) <= total,
        fitting_count(value, field, text, total) > 0 ==> note_fits(
            with_beginning(value, field, text, fitting_count(value, field, text, total) as int),
        ),
        fitting_count(value, field, text, total) < longer <= total ==> !note_fits(
            with_beginning(value, field, text, longer),
        ),
    decreases total,
{
    if total > 0 && !note_fits(with_beginning(value, field, text, total as int)) {
        lemma_fitting_count_bounds(value, field, text, (total - 1) as nat, longer);
    }
}

/// An answer with a text that is cut to what fits is small enough, as long as it is without the text.
pub proof fn law_fitted_answer_fits(value: JsonView, field: Seq<char>, text: Seq<char>)
    requires
        value is Object,
        fields_in(value).dom().finite(),
        field != "truncated"@,
        text_field(value, field) == Some(text),
        field_of(value, "truncated"@) matches Some(JsonView::Bool(_)),
        note_fits(with_beginning(value, field, text, 0)),
    ensures
        note_fits(fitted(value, field)),
{
    let count = fitting_count(value, field, text, text.len());
    lemma_fitting_count_bounds(value, field, text, text.len(), 0);
    let kept = with_beginning(value, field, text, count as int);
    lemma_size_with_field(value, field, JsonView::Text(text.take(count as int)));
    lemma_size_with_field(kept, "truncated"@, JsonView::Bool(true));
}

/// The value without the last items of the array `field`: as many are taken off as it is too large.
pub open spec fn thinned(value: JsonView, field: Seq<char>) -> JsonView
    decreases items_in(value, field).len(),
{
    if note_fits(value) || items_in(value, field).len() == 0 {
        value
    } else {
        thinned(with_field(value, field, JsonView::Array(items_in(value, field).drop_last())), field)
    }
}

/// What is left of an answer that is too large even without the items of an array.
pub open spec fn emptied(field: Seq<char>) -> JsonView {
    with_field(
        with_field(
            with_field(JsonView::Object(Map::empty()), "status"@, JsonView::Text("ok"@)),
            field,
            JsonView::Array(Seq::empty()),
        ),
        "truncated"@,
        JsonView::Bool(true),
    )
}

/// The answer with as many items of the array `field` as fit.
pub open spec fn bounded_array(value: JsonView, field: Seq<char>) -> JsonView {
    if !note_fits(thinned(value, field)) {
        emptied(field)
    } else if !note_fits(value) {
        with_field(thinned(value, field), "truncated"@, JsonView::Bool(true))
    } else {
        value
    }
}

/// Keeps as many items of the array `field` as fit.
pub fn bound_array_field(value: &mut Json, field: &str)
    requires
        old(value)@ is Object,
    ensures
        final(value)@ == bounded_array(old(value)@, field@),
{
    let ghost before = value@;
    let mut removed_any: bool = false;
    let mut emptied_field: bool = false;
    while !emptied_field && serialized_len(value) > MAX_NOTE_RESULT_BYTES
        invariant
            value@ is Object,
            thinned(value@, field@) == thinned(before, field@),
            removed_any ==> !note_fits(before),
            !removed_any ==> value@ == before,
            emptied_field ==> items_in(value@, field@).len() == 0,
        decreases
                items_in(value@, field@).len(),
                if emptied_field {
                    0nat
                } else {
                    1nat
                },
    {
        let ghost current = value@;
        if value.pop_item(field) {
            removed_any = true;
            assert(items_in(value@, field@) =~= items_in(current, field@).drop_last());
        } else {
            emptied_field = true;
        }
    }
    if serialized_len(value) > MAX_NOTE_RESULT_BYTES {
        let mut rest = Json::object();
        rest.set("status", Json::text("ok"));
        rest.set(field, Json::array());
        rest.set("truncated", Json::Bool(true));
        *value = rest;
    } else if removed_any {
        value.set("truncated", Json::Bool(true));
    }
}

/// Taking items off leaves an object.
proof fn lemma_thinned_object(value: JsonView, field: Seq<char>)
    requires
        value is Object,
        fields_in(value).dom().finite(),
        field != "truncated"@,
    ensures
        thinned(value, field) is Object,
        fields_in(thinned(value, field)).dom().finite(),
        field_of(thinned(value, field), "truncated"@) == field_of(value, "truncated"@),
    decreases items_in(value, field).len(),
{
    if !(note_fits(value) || items_in(value, field).len() == 0) {
        lemma_thinned_object(
            with_field(value, field, JsonView::Array(items_in(value, field).drop_last())),
            field,
        );
    }
}

/// An answer whose array `field` was cut to what fits is small enough, as long as the field's name is
/// not very long.
pub proof fn law_bounded_array_fits(value: JsonView, field: Seq<char>)
    requires
        value is Object,
        fields_in(value).dom().finite(),
        field != "truncated"@,
        field_of(value, "truncated"@) matches Some(JsonView::Bool(_)),
        quoted_size(field) <= 1000,
    ensures
        note_fits(bounded_array(value, field)),
        bounded_array(value, field) is Object,
        fields_in(bounded_array(value, field)).dom().finite(),
        field_of(bounded_array(value, field), "truncated"@) matches Some(JsonView::Bool(_)),
{
    lemma_thinned_object(value, field);
    if !note_fits(thinned(value, field)) {
        reveal_strlit("status");
        reveal_strlit("ok");
        reveal_strlit("truncated");
        lemma_plain_size("status"@);
        lemma_plain_size("ok"@);
        lemma_plain_size("truncated"@);
        let nothing = JsonView::Object(Map::empty());
        let first = with_field(nothing, "status"@, JsonView::Text("ok"@));
        let second = with_field(first, field, JsonView::Array(Seq::empty()));
        lemma_size_with_field(nothing, "status"@, JsonView::Text("ok"@));
        lemma_size_with_field(first, field, JsonView::Array(Seq::empty()));
        lemma_size_with_field(second, "truncated"@, JsonView::Bool(true));
    } else if !note_fits(value) {
        lemma_size_with_field(thinned(value, field), "truncated"@, JsonView::Bool(true));
    }
}

/// The answer where a note cannot be used.
pub open spec fn note_error_view(path: Seq<char>, error: NoteError) -> JsonView {
    JsonView::Object(
        map![
            "status"@ => JsonView::Text("unavailable"@),
            "path"@ => JsonView::Text(path),
            "reason"@ => JsonView::Text(reason_of(error)),
        ],
    )
}

/// The answer where a note cannot be used.
pub fn note_error(path: &str, error: NoteError) -> (answer: Json)
    ensures
        answer@ == note_error_view(path@, error),
{
    let mut answer = Json::object();
    answer.set("status", Json::text("unavailable"));
    answer.set("path", Json::text(path));
    answer.set("reason", Json::text(error.reason()));
    answer
}

/// The answer where a note would be too large.
pub open spec fn note_too_large_view(path: Seq<char>) -> JsonView {
    JsonView::Object(
        map![
            "status"@ => JsonView::Text("invalid_argument"@),
            "field"@ => JsonView::Text("text"@),
            "path"@ => JsonView::Text(path),
            "reason"@ => JsonView::Text("note exceeds the maximum UTF-8 byte size"@),
            "max_bytes"@ => unsigned_view(MAX_NOTE_BYTES as u64),
        ],
    )
}

/// The answer where a note would be too large.
pub fn note_too_large(path: &str) -> (answer: Json)
    ensures
        answer@ == note_too_large_view(path@),
{
    let mut answer = Json::object();
    answer.set("status", Json::text("invalid_argument"));
    answer.set("field", Json::text("text"));
    answer.set("path", Json::text(path));
    answer.set("reason", Json::text("note exceeds the maximum UTF-8 byte size"));
    answer.set("max_bytes", Json::count(MAX_NOTE_BYTES));
    answer
}

/// The answer where the notes cannot be scanned.
pub open spec fn scan_error_view(reason: Seq<char>) -> JsonView {
    JsonView::Object(
        map![
            "status"@ => JsonView::Text("unavailable"@),
            "reason"@ => JsonView::Text(reason),
            "truncated"@ => JsonView::Bool(true),
        ],
    )
}

/// The answer where the notes cannot be scanned.
pub fn scan_error(reason: &str) -> (answer: Json)
    ensures
        answer@ == scan_error_view(reason@),
{
    let mut answer = Json::object();
    answer.set("status", Json::text("unavailable"));
    answer.set("reason", Json::text(reason));
    answer.set("truncated", Json::Bool(true));
    answer
}

} // verus!
