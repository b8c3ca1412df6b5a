//! Bounds of the local tools, and the checks on their numeric arguments.

use vstd::prelude::*;
use vstd::string::*;

use crate::json::field_of;
use crate::json::text_field;
use crate::json::unsigned_in;
use crate::json::Json;
use crate::json::JsonView;
use crate::text::byte_len;
use crate::text::lemma_utf8_len_push;
use crate::text::lemma_utf8_len_take;
use crate::text::parse_decimal;
use crate::text::parsed_decimal;
use crate::text::utf8_len;
use crate::text::width_of;

verus! {

pub const MAX_LOCAL_ARGUMENT_BYTES: usize = 4_000;

pub const MAX_NOTE_CALL_TEXT_BYTES: usize = 3_000;

pub const MAX_HISTORY_WINDOWS: usize = 100;

pub const MAX_HISTORY_ITEMS: usize = 20;

pub const MAX_HISTORY_ITEM_PREVIEW_CHARS: usize = 4_000;

pub const MAX_HISTORY_READ_CHARS: usize = 20_000;

pub const MAX_HISTORY_QUERY_CHARS: usize = 1_000;

pub const MAX_HISTORY_RESULT_BYTES: usize = 8_000;

pub const MAX_HISTORY_SCAN_RECORDS: usize = 10_000;

pub const MAX_HISTORY_SCAN_WINDOWS: usize = 512;

pub const MAX_HISTORY_SCAN_ERRORS: usize = 8;

pub const MAX_HISTORY_ERROR_CHARS: usize = 256;

pub const MAX_HISTORY_REPLACEMENT_ITEMS: usize = 256;

pub const MAX_HISTORY_TOOL_CALLS: usize = 10_000;

pub const MAX_HISTORY_SCAN_BYTES: u64 = 67_108_864;

pub const MAX_HISTORY_RECORD_BYTES: u64 = 4_194_304;

pub const MAX_HISTORY_SEARCH_EXCERPT_CHARS: usize = 768;

/// Characters shown before the first match of a search.
pub const HISTORY_SEARCH_LEAD_CHARS: usize = 128;

/// Bytes kept free for the final continuation cursor.
pub const HISTORY_CURSOR_RESERVE_BYTES: usize = 100;

pub const MAX_NOTE_BYTES: usize = 1_000_000;

pub const MAX_NOTE_FILES: usize = 100;

pub const MAX_NOTE_SEARCH_FILES: usize = 20;

pub const MAX_NOTE_MATCHES_PER_FILE: usize = 10;

pub const MAX_NOTE_QUERY_CHARS: usize = 1_000;

pub const MAX_NOTE_RESULT_BYTES: usize = 8_000;

pub const MAX_NOTE_PATH_BYTES: usize = 1_024;

pub const MAX_NOTE_PATH_COMPONENTS: usize = 64;

pub const MAX_NOTE_SCAN_FILES: usize = 256;

pub const MAX_NOTE_MATCH_TEXT_CHARS: usize = 768;

pub const MAX_THREAD_HINT_BYTES: usize = 4_000;

pub const MAX_THREAD_HINT_FILES: usize = 5;

/// What a result with a JSON error holds.
pub open spec fn count_outcome(outcome: Result<usize, Json>) -> Result<usize, JsonView> {
    match outcome {
        Ok(value) => Ok(value),
        Err(error) => Err(error@),
    }
}

/// The answer to a call whose argument `field` is refused.
pub open spec fn invalid_argument_view(field: Seq<char>, reason: Seq<char>) -> JsonView {
    JsonView::Object(
        map![
            "status"@ => JsonView::Text("invalid_argument"@),
            "field"@ => JsonView::Text(field),
            "reason"@ => JsonView::Text(reason),
        ],
    )
}

/// The answer to a call whose argument `field` is refused.
pub fn invalid_argument(field: &str, reason: &str) -> (answer: Json)
    ensures
        answer@ == invalid_argument_view(field@, reason@),
{
    let mut answer = Json::object();
    answer.set("status", Json::text("invalid_argument"));
    answer.set("field", Json::text(field));
    answer.set("reason", Json::text(reason));
    answer
}

/// The smaller of two counts.
pub open spec fn smaller(left: usize, right: usize) -> usize {
    if left <= right {
        left
    } else {
        right
    }
}

/// A positive count in the argument `field`: its default where it is absent, never above `maximum`.
pub open spec fn bounded_count(
    arguments: JsonView,
    field: Seq<char>,
    default: usize,
    maximum: usize,
) -> Result<usize, JsonView> {
    match field_of(arguments, field) {
        None => Ok(smaller(default, maximum)),
        Some(value) => match unsigned_in(value) {
            None => Err(invalid_argument_view(field, "must be a non-negative integer"@)),
            Some(number) => if number > usize::MAX {
                Err(invalid_argument_view(field, "must be a non-negative integer"@))
            } else if number == 0 {
                Err(invalid_argument_view(field, "must be greater than zero"@))
            } else {
                Ok(smaller(number as usize, maximum))
            },
        },
    }
}

/// A positive count in the argument `field`: its default where it is absent, never above `maximum`.
pub fn bounded_usize(arguments: &Json, field: &str, default: usize, maximum: usize) -> (outcome: Result<
    usize,
    Json,
>)
    ensures
        count_outcome(outcome) == bounded_count(arguments@, field@, default, maximum),
{
    let value = match arguments.get(field) {
        Some(value) => value,
        None => {
            return Ok(if default <= maximum {
                default
            } else {
                maximum
            });
        },
    };
    let number: u64 = match value.as_u64() {
        Some(number) => number,
        None => {
            return Err(invalid_argument(field, "must be a non-negative integer"));
        },
    };
    if number > usize::MAX as u64 {
        return Err(invalid_argument(field, "must be a non-negative integer"));
    }
    if number == 0 {
        return Err(invalid_argument(field, "must be greater than zero"));
    }
    let count: usize = number as usize;
    Ok(if count <= maximum {
        count
    } else {
        maximum
    })
}

/// The position that the argument `cursor` continues from.
pub open spec fn cursor_offset(arguments: JsonView) -> Result<usize, JsonView> {
    match text_field(arguments, "cursor"@) {
        None => Ok(0),
        Some(text) => match parsed_decimal(text, usize::MAX as nat) {
            Some(value) => Ok(value as usize),
            None => Err(invalid_argument_view("cursor"@, "must be a non-negative integer"@)),
        },
    }
}

/// The position that the argument `cursor` continues from.
pub fn cursor(arguments: &Json) -> (outcome: Result<usize, Json>)
    ensures
        count_outcome(outcome) == cursor_offset(arguments@),
{
    match arguments.text_at("cursor") {
        None => Ok(0),
        Some(text) => match parse_decimal(text) {
            Some(value) => Ok(value),
            None => Err(invalid_argument("cursor", "must be a non-negative integer")),
        },
    }
}

/// Number of characters.
pub fn char_count(text: &str) -> (count: usize)
    ensures
        count == text@.len(),
{
    text.unicode_len()
}

/// The byte at which the character `char_index` starts; the end of the text for the index behind
/// its last character.
pub fn byte_index_at_char(text: &str, char_index: usize) -> (index: Option<usize>)
    ensures
        match index {
            Some(byte) => char_index <= text@.len() && byte == utf8_len(text@.take(char_index as int)),
            None => char_index > text@.len(),
        },
{
    let total: usize = byte_len(text);
    let mut byte: usize = 0;
    let mut count: usize = 0;
    assert(text@.take(0) =~= Seq::<char>::empty());
    for c in it: text.chars()
        invariant
            it.seq() == text@,
            count == it.index(),
            count <= char_index,
            total == utf8_len(text@),
            byte == utf8_len(text@.take(count as int)),
    {
        if count == char_index {
            return Some(byte);
        }
        proof {
            assert(text@.take(count + 1) =~= text@.take(count as int).push(c));
            lemma_utf8_len_push(text@.take(count as int), c);
            lemma_utf8_len_take(text@, count + 1, text@.len() as int);
        }
        byte = byte + width_of(c);
        count = count + 1;
    }
    if count == char_index {
        Some(byte)
    } else {
        None
    }
}

/// The first character of a range that starts at `offset`.
pub open spec fn range_start(text: Seq<char>, offset: nat) -> int {
    if offset <= text.len() {
        offset as int
    } else {
        text.len() as int
    }
}

/// The end of a range of at most `limit` characters that starts at `offset`.
pub open spec fn range_end(text: Seq<char>, offset: nat, limit: nat) -> int {
    if range_start(text, offset) + limit <= text.len() {
        range_start(text, offset) + limit
    } else {
        text.len() as int
    }
}

/// At most `limit` characters from `offset` on.
pub open spec fn char_range(text: Seq<char>, offset: nat, limit: nat) -> Seq<char> {
    text.subrange(range_start(text, offset), range_end(text, offset, limit))
}

/// At most `limit` characters from `offset` on, how many they are, and whether text follows them.
pub fn char_slice(text: &str, offset: usize, limit: usize) -> (slice: (&str, usize, bool))
    ensures
        slice.0@ == char_range(text@, offset as nat, limit as nat),
        slice.1 == slice.0@.len(),
        slice.2 == (range_end(text@, offset as nat, limit as nat) < text@.len()),
{
    let count: usize = char_count(text);
    let start: usize = if offset <= count {
        offset
    } else {
        count
    };
    let rest: usize = count - start;
    let end: usize = if limit <= rest {
        start + limit
    } else {
        count
    };
    (text.substring_char(start, end), end - start, end < count)
}

/// Two ranges, the second from where the first ended, are one range: ranged reads leave nothing out.
pub proof fn law_ranges_join(text: Seq<char>, offset: nat, first: nat, second: nat)
    ensures
        char_range(text, offset, first) + char_range(
            text,
            range_end(text, offset, first) as nat,
            second,
        ) == char_range(text, offset, first + second),
{
    assert(char_range(text, offset, first) + char_range(text, range_end(text, offset, first) as nat, second)
        =~= char_range(text, offset, first + second));
}

/// A range that more text follows is as long as was asked for: ranged reads make progress.
pub proof fn law_range_progress(text: Seq<char>, offset: nat, limit: nat)
    requires
        range_end(text, offset, limit) < text.len(),
    ensures
        char_range(text, offset, limit).len() == limit,
        range_end(text, offset, limit) == offset + limit,
{
}

} // verus!
