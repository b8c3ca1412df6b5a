//! What the pieces, numbers, orders and bounds of texts are, stated over their characters.

use vstd::prelude::*;
use vstd::utf8::*;

use crate::json::field_of;
use crate::json::JsonView;
use crate::json::NumberView;
use crate::limits::bounded_count;
use crate::limits::char_range;
use crate::note_helpers::bounded;
use crate::note_search_laws::lemma_longest_beginning;
use crate::note_search_laws::lemma_marker;
use crate::records::source_of;
use crate::records::HostSource;
use crate::records::SessionSource;
use crate::text::blank;
use crate::text::bytes_before;
use crate::text::decimal;
use crate::text::digits_value;
use crate::text::lemma_piece_end_unique;
use crate::text::parsed_decimal;
use crate::text::pieces;
use crate::text::text_before;
use crate::text::utf8_len;
use crate::text::white_space;

verus! {

/// A text without the separator is one piece; what stands before a separator is a piece, and the pieces of
/// what stands behind it follow.
pub proof fn law_pieces(piece: Seq<char>, rest: Seq<char>, separator: char)
    requires
        !piece.contains(separator),
    ensures
        pieces(piece, separator) == seq![piece],
        pieces(piece + seq![separator] + rest, separator) == seq![piece] + pieces(rest, separator),
{
    let whole = piece + seq![separator] + rest;
    assert forall|i: int| 0 <= i < piece.len() implies piece[i] != separator by {
        assert(piece.contains(piece[i]));
    }
    lemma_piece_end_unique(piece, separator, piece.len() as int);
    lemma_piece_end_unique(whole, separator, piece.len() as int);
    assert(whole.take(piece.len() as int) =~= piece);
    assert(whole.skip(piece.len() as int + 1) =~= rest);
}

/// Numbers are written with the ten digits, the ones behind the tens.
pub proof fn law_decimal_digits(n: nat, ones: nat)
    requires
        ones < 10,
    ensures
        decimal(0) == seq!['0'],
        decimal(1) == seq!['1'],
        decimal(9) == seq!['9'],
        n > 0 ==> decimal(n * 10 + ones) == decimal(n) + decimal(ones),
        n < 9 ==> decimal(n).len() == 1 && decimal(n + 1)[0] as u32 == decimal(n)[0] as u32 + 1,
{
    if n > 0 {
        assert((n * 10 + ones) / 10 == n && (n * 10 + ones) % 10 == ones) by (nonlinear_arith)
            requires
                ones < 10,
        ;
        assert(decimal(n) + decimal(ones) =~= decimal(n * 10 + ones));
    }
    assert(('0' as u32 + 0) as char == '0');
    assert(('0' as u32 + 1) as char == '1');
    assert(('0' as u32 + 9) as char == '9');
}

/// A number is read from digits alone, a plus sign before them at most, and up to the largest one.
pub proof fn law_which_numbers_are_read(text: Seq<char>, maximum: nat)
    ensures
        parsed_decimal(text, maximum) is Some ==> {
            let digits = if text[0] == '+' {
                text.skip(1)
            } else {
                text
            };
            &&& digits.len() > 0
            &&& forall|i: int| 0 <= i < digits.len() ==> '0' <= #[trigger] digits[i] <= '9'
            &&& parsed_decimal(text, maximum) == Some(digits_value(digits))
            &&& digits_value(digits) <= maximum
        },
        text.len() == 0 ==> parsed_decimal(text, maximum) is None,
{
    if parsed_decimal(text, maximum) is Some {
        let digits = if text[0] == '+' {
            text.skip(1)
        } else {
            text
        };
        assert(digits == crate::text::digits_part(text));
        assert forall|i: int| 0 <= i < digits.len() implies '0' <= #[trigger] digits[i] <= '9' by {
            assert(crate::text::is_digit(digits[i]));
        }
    }
}

/// Texts are ordered by their bytes: the first in which they differ decides, and a text comes before any
/// that goes on from it.
pub proof fn law_texts_are_ordered_by_bytes(left: Seq<char>, right: Seq<char>, at: int)
    requires
        0 <= at <= encode_utf8(left).len(),
        at <= encode_utf8(right).len(),
        forall|i: int| 0 <= i < at ==> #[trigger] encode_utf8(left)[i] == encode_utf8(right)[i],
    ensures
        at < encode_utf8(left).len() && at < encode_utf8(right).len() && encode_utf8(left)[at] != encode_utf8(
            right,
        )[at] ==> (text_before(left, right) <==> encode_utf8(left)[at] < encode_utf8(right)[at]),
        at == encode_utf8(left).len() && at < encode_utf8(right).len() ==> text_before(left, right) && !text_before(
            right,
            left,
        ),
        at == encode_utf8(left).len() && at == encode_utf8(right).len() ==> !text_before(left, right),
{
    lemma_byte_order(encode_utf8(left), encode_utf8(right), at);
    lemma_byte_order(encode_utf8(right), encode_utf8(left), at);
}

/// As above, for bytes.
proof fn lemma_byte_order(left: Seq<u8>, right: Seq<u8>, at: int)
    requires
        0 <= at <= left.len(),
        at <= right.len(),
        forall|i: int| 0 <= i < at ==> left[i] == right[i],
    ensures
        at < left.len() && at < right.len() && left[at] != right[at] ==> bytes_before(left, right) == (left[at]
            < right[at]),
        at == left.len() ==> bytes_before(left, right) == (at < right.len()),
        at == right.len() ==> !bytes_before(left, right),
    decreases at,
{
    if at > 0 {
        let shorter = left.drop_first();
        let other = right.drop_first();
        assert forall|i: int| 0 <= i < at - 1 implies shorter[i] == other[i] by {
            assert(left[i + 1] == right[i + 1]);
        }
        assert(left[0] == right[0]);
        lemma_byte_order(shorter, other, at - 1);
    }
}

/// A part of a text are its characters from the offset on, as many as are asked for or as there are.
pub proof fn law_part_of_a_text(text: Seq<char>, offset: nat, limit: nat)
    ensures
        offset >= text.len() ==> char_range(text, offset, limit).len() == 0,
        offset + limit <= text.len() ==> char_range(text, offset, limit) == text.subrange(
            offset as int,
            (offset + limit) as int,
        ),
        offset <= text.len() && offset + limit > text.len() ==> char_range(text, offset, limit) == text.skip(
            offset as int,
        ),
{
    if offset <= text.len() && offset + limit > text.len() {
        assert(char_range(text, offset, limit) =~= text.skip(offset as int));
    }
}

/// A text that was bounded is the text itself where it fits, and otherwise its longest beginning that leaves
/// room for the marker, with the marker behind it.
pub proof fn law_bounded_text_is_the_longest(text: Seq<char>, maximum: usize) -> (kept: int)
    requires
        maximum >= 12,
    ensures
        utf8_len(text) <= maximum ==> bounded(text, maximum) == (text, false),
        utf8_len(text) > maximum ==> {
            &&& 0 <= kept < text.len()
            &&& bounded(text, maximum) == (text.take(kept) + "\n[truncated]"@, true)
            &&& utf8_len(text.take(kept)) + 12 <= maximum
            &&& utf8_len(text.take(kept + 1)) + 12 > maximum
        },
{
    lemma_marker();
    if utf8_len(text) > maximum {
        lemma_longest_beginning(text, (maximum - 12) as nat)
    } else {
        0
    }
}

/// The characters that are white space are those with that property in Unicode, and a text of them alone is
/// blank.
pub proof fn law_white_space(c: char, text: Seq<char>)
    ensures
        white_space(c) <==> {
            ||| c == ' ' || c == '\t' || c == '\n' || c == '\u{b}' || c == '\u{c}' || c == '\r'
            ||| c == '\u{85}' || c == '\u{a0}' || c == '\u{1680}'
            ||| '\u{2000}' <= c <= '\u{200a}'
            ||| c == '\u{2028}' || c == '\u{2029}' || c == '\u{202f}' || c == '\u{205f}' || c == '\u{3000}'
        },
        blank(text) <==> forall|i: int| 0 <= i < text.len() ==> white_space(#[trigger] text[i]),
{
    assert(c as u32 == 0x20 ==> c == ' ');
}

/// A count is refused where it is zero or no unsigned number; one that is too large is cut, and where there
/// is none the default counts.
pub proof fn law_counts_are_read(arguments: JsonView, field: Seq<char>, default: usize, maximum: usize)
    requires
        default <= maximum,
    ensures
        match field_of(arguments, field) {
            None => bounded_count(arguments, field, default, maximum) == Ok::<_, JsonView>(default),
            Some(JsonView::Number(NumberView::Unsigned(number))) => {
                &&& number == 0 ==> bounded_count(arguments, field, default, maximum) is Err
                &&& 0 < number <= maximum ==> bounded_count(arguments, field, default, maximum) == Ok::<_, JsonView>(
                    number as usize,
                )
                &&& maximum < number <= usize::MAX ==> bounded_count(arguments, field, default, maximum) == Ok::<
                    _,
                    JsonView,
                >(maximum)
            },
            Some(_) => bounded_count(arguments, field, default, maximum) is Err,
        },
{
}

/// A session that a person's client started is a person's own; one that a thread spawned is a thread's
/// child; any other agent is one of the host.
pub proof fn law_who_started_a_session(source: HostSource)
    ensures
        source_of(source) == SessionSource::Root <==> source is Cli || source is Exec || source is Client,
        source_of(source) == SessionSource::SpawnedChild <==> (source matches HostSource::SubAgent(agent)
            && agent is ThreadSpawn),
        source_of(source) == SessionSource::InternalAgent <==> source is Internal || (source matches HostSource::SubAgent(
            agent,
        ) && !(agent is ThreadSpawn)),
{
}

} // verus!
