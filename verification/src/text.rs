//! Text helpers: lengths in UTF-8 bytes, character ranges, lines, literal search and decimals.

use vstd::prelude::*;
use vstd::string::*;
use vstd::utf8::*;

verus! {

/// `String::push` appends one character at the end.
pub assume_specification[ String::push ](text: &mut String, c: char)
    ensures
        final(text)@ == old(text)@.push(c),
;

/// Number of bytes in the UTF-8 encoding of `text`.
pub open spec fn utf8_len(text: Seq<char>) -> nat {
    encode_utf8(text).len()
}

/// Number of bytes in the UTF-8 encoding of one character.
pub open spec fn char_width(c: char) -> nat {
    if (c as u32) < 0x80 {
        1
    } else if (c as u32) < 0x800 {
        2
    } else if (c as u32) < 0x10000 {
        3
    } else {
        4
    }
}

/// The optional text that an optional string holds.
pub open spec fn opt_view(text: Option<String>) -> Option<Seq<char>> {
    match text {
        Some(text) => Some(text@),
        None => None,
    }
}

/// The texts that a sequence of strings holds.
pub open spec fn texts_view(texts: Seq<String>) -> Seq<Seq<char>> {
    texts.map_values(|text: String| text@)
}

/// The same optional text again.
pub fn copy_opt(text: &Option<String>) -> (copy: Option<String>)
    ensures
        opt_view(copy) == opt_view(*text),
{
    match text {
        Some(text) => Some(text.clone()),
        None => None,
    }
}

/// UTF-8 encodes a concatenation piece by piece.
pub proof fn lemma_encode_concat(a: Seq<char>, b: Seq<char>)
    ensures
        encode_utf8(a + b) == encode_utf8(a) + encode_utf8(b),
    decreases a.len(),
{
    if a.len() == 0 {
        assert(a + b =~= b);
        assert(encode_utf8(a) + encode_utf8(b) =~= encode_utf8(b));
    } else {
        lemma_encode_concat(a.drop_first(), b);
        assert((a + b).drop_first() =~= a.drop_first() + b);
        assert(encode_utf8(a + b) =~= encode_utf8(a) + encode_utf8(b));
    }
}

/// The UTF-8 length of a concatenation is the sum of the lengths.
pub proof fn lemma_utf8_len_concat(a: Seq<char>, b: Seq<char>)
    ensures
        utf8_len(a + b) == utf8_len(a) + utf8_len(b),
{
    lemma_encode_concat(a, b);
}

/// One more character adds its own width.
pub proof fn lemma_utf8_len_push(a: Seq<char>, c: char)
    ensures
        utf8_len(a.push(c)) == utf8_len(a) + char_width(c),
{
    lemma_utf8_len_concat(a, seq![c]);
    assert(a + seq![c] =~= a.push(c));
    assert(seq![c].drop_first() =~= Seq::<char>::empty());
    reveal_with_fuel(encode_utf8, 2);
    assert(encode_utf8(seq![c]) =~= encode_scalar(c as u32));
}

/// A longer prefix is never shorter in bytes.
pub proof fn lemma_utf8_len_take(text: Seq<char>, n: int, m: int)
    requires
        0 <= n <= m <= text.len(),
    ensures
        utf8_len(text.take(n)) <= utf8_len(text.take(m)) <= utf8_len(text),
{
    assert(text.take(m) =~= text.take(n) + text.subrange(n, m));
    lemma_utf8_len_concat(text.take(n), text.subrange(n, m));
    assert(text =~= text.take(m) + text.skip(m));
    lemma_utf8_len_concat(text.take(m), text.skip(m));
}

/// A text has at least one byte and at most four bytes per character.
pub proof fn lemma_utf8_len_bounds(text: Seq<char>)
    ensures
        text.len() <= utf8_len(text) <= 4 * text.len(),
    decreases text.len(),
{
    if text.len() > 0 {
        lemma_utf8_len_bounds(text.drop_last());
        lemma_utf8_len_push(text.drop_last(), text.last());
        assert(text.drop_last().push(text.last()) =~= text);
    }
}

/// Texts with one encoding are one text.
pub proof fn lemma_encode_injective(a: Seq<char>, b: Seq<char>)
    requires
        encode_utf8(a) == encode_utf8(b),
    ensures
        a == b,
{
    encode_utf8_decode_utf8(a);
    encode_utf8_decode_utf8(b);
}

/// Number of UTF-8 bytes of `text`.
pub fn byte_len(text: &str) -> (length: usize)
    ensures
        length == utf8_len(text@),
{
    text.as_bytes().len()
}

/// Number of UTF-8 bytes of one character.
pub fn width_of(c: char) -> (width: usize)
    ensures
        width == char_width(c),
{
    let code: u32 = c as u32;
    if code < 0x80 {
        1
    } else if code < 0x800 {
        2
    } else if code < 0x10000 {
        3
    } else {
        4
    }
}

/// Whether two texts are the same.
pub fn same_text(left: &str, right: &str) -> (same: bool)
    ensures
        same == (left@ == right@),
{
    let a = left.as_bytes();
    let b = right.as_bytes();
    if a.len() != b.len() {
        return false;
    }
    let mut index: usize = 0;
    while index < a.len()
        invariant
            index <= a@.len(),
            a@.len() == b@.len(),
            a@ == encode_utf8(left@),
            b@ == encode_utf8(right@),
            a@.take(index as int) == b@.take(index as int),
        decreases a@.len() - index,
    {
        if a[index] != b[index] {
            return false;
        }
        assert(a@.take(index + 1) =~= a@.take(index as int).push(a@[index as int]));
        assert(b@.take(index + 1) =~= b@.take(index as int).push(b@[index as int]));
        index = index + 1;
    }
    proof {
        assert(a@.take(index as int) =~= a@);
        assert(b@.take(index as int) =~= b@);
        lemma_encode_injective(left@, right@);
    }
    true
}

/// The characters of `text` in order.
pub fn chars_of(text: &str) -> (chars: Vec<char>)
    ensures
        chars@ == text@,
{
    let mut chars: Vec<char> = Vec::new();
    for c in it: text.chars()
        invariant
            chars@ == it.seq().take(it.index() as int),
            it.seq() == text@,
    {
        chars.push(c);
    }
    chars
}

/// The text made of `chars[from..to]`.
pub fn text_of(chars: &Vec<char>, from: usize, to: usize) -> (text: String)
    requires
        from <= to <= chars@.len(),
    ensures
        text@ == chars@.subrange(from as int, to as int),
{
    let mut text = String::new();
    let mut index: usize = from;
    while index < to
        invariant
            from <= index <= to <= chars@.len(),
            text@ == chars@.subrange(from as int, index as int),
        decreases to - index,
    {
        text.push(chars[index]);
        index = index + 1;
        assert(text@ =~= chars@.subrange(from as int, index as int));
    }
    text
}

/// `query` stands in `text` at character `at`.
pub open spec fn occurs_at(text: Seq<char>, query: Seq<char>, at: int) -> bool {
    &&& 0 <= at
    &&& at + query.len() <= text.len()
    &&& text.subrange(at, at + query.len()) == query
}

/// `query` stands somewhere in `text`.
pub open spec fn occurs(text: Seq<char>, query: Seq<char>) -> bool {
    exists|at: int| occurs_at(text, query, at)
}

/// `at` is the first character of `text` at which `query` stands.
pub open spec fn first_at(text: Seq<char>, query: Seq<char>, at: int) -> bool {
    &&& occurs_at(text, query, at)
    &&& forall|earlier: int| earlier < at ==> !occurs_at(text, query, earlier)
}

/// Whether `query` stands in `text` at character `at`.
fn matches_at(text: &Vec<char>, query: &Vec<char>, at: usize) -> (found: bool)
    requires
        at + query@.len() <= text@.len(),
    ensures
        found == occurs_at(text@, query@, at as int),
{
    let size: usize = text.len();
    let mut index: usize = 0;
    while index < query.len()
        invariant
            index <= query@.len(),
            size == text@.len(),
            at + query@.len() <= size,
            forall|i: int| 0 <= i < index ==> text@[at + i] == query@[i],
        decreases query@.len() - index,
    {
        if text[at + index] != query[index] {
            assert(text@.subrange(at as int, at + query@.len())[index as int] != query@[index as int]);
            return false;
        }
        index = index + 1;
    }
    assert(text@.subrange(at as int, at + query@.len()) =~= query@);
    true
}

/// The first character at which `query` stands in `text`.
pub fn find(text: &str, query: &str) -> (found: Option<usize>)
    ensures
        match found {
            Some(at) => first_at(text@, query@, at as int),
            None => !occurs(text@, query@),
        },
{
    let chars = chars_of(text);
    let wanted = chars_of(query);
    if wanted.len() > chars.len() {
        return None;
    }
    let last: usize = chars.len() - wanted.len();
    let mut at: usize = 0;
    loop
        invariant
            chars@ == text@,
            wanted@ == query@,
            wanted@.len() <= chars@.len(),
            last == chars@.len() - wanted@.len(),
            at <= last,
            forall|earlier: int| earlier < at ==> !occurs_at(text@, query@, earlier),
        decreases last - at,
    {
        if matches_at(&chars, &wanted, at) {
            return Some(at);
        }
        if at == last {
            return None;
        }
        at = at + 1;
    }
}

/// Whether `query` stands somewhere in `text`.
pub fn contains(text: &str, query: &str) -> (found: bool)
    ensures
        found == occurs(text@, query@),
{
    find(text, query).is_some()
}

/// Whether the character `wanted` stands in `text`.
pub fn contains_char(text: &str, wanted: char) -> (found: bool)
    ensures
        found == text@.contains(wanted),
{
    let chars = chars_of(text);
    let mut index: usize = 0;
    while index < chars.len()
        invariant
            index <= chars@.len(),
            chars@ == text@,
            forall|i: int| 0 <= i < index ==> chars@[i] != wanted,
        decreases chars@.len() - index,
    {
        if chars[index] == wanted {
            return true;
        }
        index = index + 1;
    }
    false
}

/// Whether `text` starts with `prefix`.
pub fn starts_with(text: &str, prefix: &str) -> (starts: bool)
    ensures
        starts == prefix@.is_prefix_of(text@),
{
    let chars = chars_of(text);
    let wanted = chars_of(prefix);
    if wanted.len() > chars.len() {
        return false;
    }
    matches_at(&chars, &wanted, 0)
}

/// The parts with `separator` between each two.
pub open spec fn joined(parts: Seq<Seq<char>>, separator: Seq<char>) -> Seq<char>
    decreases parts.len(),
{
    if parts.len() == 0 {
        Seq::empty()
    } else if parts.len() == 1 {
        parts[0]
    } else {
        joined(parts.drop_last(), separator) + separator + parts.last()
    }
}

/// The parts with `separator` between each two.
pub fn join(parts: &Vec<String>, separator: &str) -> (text: String)
    ensures
        text@ == joined(texts_view(parts@), separator@),
{
    let mut text = String::new();
    let mut index: usize = 0;
    let ghost views = texts_view(parts@);
    while index < parts.len()
        invariant
            index <= parts@.len(),
            views == texts_view(parts@),
            text@ == joined(views.take(index as int), separator@),
        decreases parts@.len() - index,
    {
        if index > 0 {
            text.append(separator);
        }
        text.append(parts[index].as_str());
        proof {
            assert(views.take(index + 1).drop_last() =~= views.take(index as int));
            assert(views.take(index + 1).last() == parts@[index as int]@);
            if index == 0 {
                assert(text@ =~= views.take(1)[0]);
            }
        }
        index = index + 1;
    }
    assert(views.take(index as int) =~= views);
    text
}

/// The position of the first line feed of `text`, or its length.
pub open spec fn line_end(text: Seq<char>) -> int
    decreases text.len(),
{
    if text.len() == 0 || text[0] == '\n' {
        0
    } else {
        1 + line_end(text.drop_first())
    }
}

/// A line that ended in a line feed, without a carriage return at its end.
pub open spec fn without_return(line: Seq<char>) -> Seq<char> {
    if line.len() > 0 && line.last() == '\r' {
        line.drop_last()
    } else {
        line
    }
}

/// The lines of `text`: each ends at a line feed or a carriage return with a line feed; the last
/// line needs no ending.
pub open spec fn lines_of(text: Seq<char>) -> Seq<Seq<char>>
    decreases text.len(),
    via lines_of_decreases
{
    if text.len() == 0 {
        Seq::empty()
    } else if line_end(text) >= text.len() {
        seq![text]
    } else {
        seq![without_return(text.take(line_end(text)))] + lines_of(text.skip(line_end(text) + 1))
    }
}

#[via_fn]
proof fn lines_of_decreases(text: Seq<char>) {
    lemma_line_end(text);
}

/// Where the first line ends.
pub proof fn lemma_line_end(text: Seq<char>)
    ensures
        0 <= line_end(text) <= text.len(),
        line_end(text) < text.len() ==> text[line_end(text)] == '\n',
        forall|i: int| 0 <= i < line_end(text) ==> text[i] != '\n',
    decreases text.len(),
{
    if text.len() > 0 && text[0] != '\n' {
        lemma_line_end(text.drop_first());
        assert forall|i: int| 0 <= i < line_end(text) implies text[i] != '\n' by {
            if i > 0 {
                assert(text[i] == text.drop_first()[i - 1]);
            }
        }
    }
}

/// The end of the first line is the only position with these properties.
proof fn lemma_line_end_unique(text: Seq<char>, end: int)
    requires
        0 <= end <= text.len(),
        end < text.len() ==> text[end] == '\n',
        forall|i: int| 0 <= i < end ==> text[i] != '\n',
    ensures
        line_end(text) == end,
{
    lemma_line_end(text);
    if line_end(text) < end {
        assert(text[line_end(text)] != '\n');
    }
    if end < line_end(text) {
        assert(text[end] != '\n');
    }
}

/// The lines of `text`.
pub fn lines(text: &str) -> (found: Vec<String>)
    ensures
        texts_view(found@) == lines_of(text@),
{
    let chars = chars_of(text);
    let mut found: Vec<String> = Vec::new();
    let mut start: usize = 0;
    assert(chars@.skip(0) =~= chars@);
    assert(texts_view(found@) + lines_of(chars@) =~= lines_of(chars@));
    while start < chars.len()
        invariant
            start <= chars@.len(),
            lines_of(chars@) == texts_view(found@) + lines_of(chars@.skip(start as int)),
        decreases chars@.len() - start,
    {
        let mut end: usize = start;
        while end < chars.len() && chars[end] != '\n'
            invariant
                start <= end <= chars@.len(),
                forall|i: int| start <= i < end ==> chars@[i] != '\n',
            decreases chars@.len() - end,
        {
            end = end + 1;
        }
        let ghost rest = chars@.skip(start as int);
        let ghost before = texts_view(found@);
        proof {
            assert forall|i: int| 0 <= i < end - start implies rest[i] != '\n' by {
                assert(rest[i] == chars@[start + i]);
            }
            lemma_line_end_unique(rest, end - start);
        }
        if end == chars.len() {
            let line = text_of(&chars, start, end);
            assert(line@ =~= rest);
            found.push(line);
            assert(texts_view(found@) =~= before.push(rest));
            assert(lines_of(chars@) =~= texts_view(found@));
            assert(chars@.skip(end as int) =~= Seq::<char>::empty());
            assert(texts_view(found@) + lines_of(Seq::<char>::empty()) =~= texts_view(found@));
            start = end;
        } else {
            let stop: usize = if end > start && chars[end - 1] == '\r' {
                end - 1
            } else {
                end
            };
            let line = text_of(&chars, start, stop);
            assert(line@ =~= without_return(rest.take(end - start)));
            found.push(line);
            assert(rest.skip(end - start + 1) =~= chars@.skip(end + 1));
            assert(texts_view(found@) =~= before.push(line@));
            assert(lines_of(chars@) =~= texts_view(found@) + lines_of(chars@.skip(end + 1)));
            start = end + 1;
        }
    }
    proof {
        assert(chars@.skip(start as int) =~= Seq::<char>::empty());
        assert(texts_view(found@) + lines_of(Seq::<char>::empty()) =~= texts_view(found@));
    }
    found
}

/// The position of the first `separator` of `text`, or its length.
pub open spec fn piece_end(text: Seq<char>, separator: char) -> int
    decreases text.len(),
{
    if text.len() == 0 || text[0] == separator {
        0
    } else {
        1 + piece_end(text.drop_first(), separator)
    }
}

/// The pieces of `text` between each two separators.
pub open spec fn pieces(text: Seq<char>, separator: char) -> Seq<Seq<char>>
    decreases text.len(),
    via pieces_decreases
{
    if piece_end(text, separator) >= text.len() {
        seq![text]
    } else {
        seq![text.take(piece_end(text, separator))] + pieces(
            text.skip(piece_end(text, separator) + 1),
            separator,
        )
    }
}

#[via_fn]
proof fn pieces_decreases(text: Seq<char>, separator: char) {
    lemma_piece_end(text, separator);
}

/// Where the first piece ends.
pub proof fn lemma_piece_end(text: Seq<char>, separator: char)
    ensures
        0 <= piece_end(text, separator) <= text.len(),
        piece_end(text, separator) < text.len() ==> text[piece_end(text, separator)] == separator,
        forall|i: int| 0 <= i < piece_end(text, separator) ==> text[i] != separator,
    decreases text.len(),
{
    if text.len() > 0 && text[0] != separator {
        lemma_piece_end(text.drop_first(), separator);
        assert forall|i: int| 0 <= i < piece_end(text, separator) implies text[i] != separator by {
            if i > 0 {
                assert(text[i] == text.drop_first()[i - 1]);
            }
        }
    }
}

/// The end of the first piece is the only position with these properties.
pub proof fn lemma_piece_end_unique(text: Seq<char>, separator: char, end: int)
    requires
        0 <= end <= text.len(),
        end < text.len() ==> text[end] == separator,
        forall|i: int| 0 <= i < end ==> text[i] != separator,
    ensures
        piece_end(text, separator) == end,
{
    lemma_piece_end(text, separator);
    if piece_end(text, separator) < end {
        assert(text[piece_end(text, separator)] != separator);
    }
    if end < piece_end(text, separator) {
        assert(text[end] != separator);
    }
}

/// The pieces of `text` between each two separators.
pub fn split(text: &str, separator: char) -> (found: Vec<String>)
    ensures
        texts_view(found@) == pieces(text@, separator),
{
    let chars = chars_of(text);
    let mut found: Vec<String> = Vec::new();
    let mut start: usize = 0;
    assert(chars@.skip(0) =~= chars@);
    assert(texts_view(found@) + pieces(chars@, separator) =~= pieces(chars@, separator));
    loop
        invariant
            start <= chars@.len(),
            chars@ == text@,
            pieces(chars@, separator) == texts_view(found@) + pieces(chars@.skip(start as int), separator),
        decreases chars@.len() - start,
    {
        let mut end: usize = start;
        while end < chars.len() && chars[end] != separator
            invariant
                start <= end <= chars@.len(),
                forall|i: int| start <= i < end ==> chars@[i] != separator,
            decreases chars@.len() - end,
        {
            end = end + 1;
        }
        let ghost rest = chars@.skip(start as int);
        let ghost before = texts_view(found@);
        proof {
            assert forall|i: int| 0 <= i < end - start implies rest[i] != separator by {
                assert(rest[i] == chars@[start + i]);
            }
            lemma_piece_end_unique(rest, separator, end - start);
        }
        let piece = text_of(&chars, start, end);
        assert(piece@ =~= rest.take(end - start));
        found.push(piece);
        assert(texts_view(found@) =~= before.push(piece@));
        if end == chars.len() {
            assert(piece@ =~= rest);
            assert(texts_view(found@) =~= before + seq![rest]);
            return found;
        }
        assert(rest.skip(end - start + 1) =~= chars@.skip(end + 1));
        assert(before + (seq![piece@] + pieces(chars@.skip(end + 1), separator)) =~= texts_view(found@) + pieces(
            chars@.skip(end + 1),
            separator,
        ));
        start = end + 1;
    }
}

/// What pieces join to is the text that they were split from.
pub proof fn law_pieces_join(text: Seq<char>, separator: char)
    ensures
        joined(pieces(text, separator), seq![separator]) == text,
        pieces(text, separator).len() > 0,
    decreases text.len(),
{
    lemma_piece_end(text, separator);
    let end = piece_end(text, separator);
    if end < text.len() {
        let rest = text.skip(end + 1);
        law_pieces_join(rest, separator);
        lemma_joined_prepend(text.take(end), pieces(rest, separator), seq![separator]);
        assert(text =~= text.take(end) + seq![separator] + rest);
    }
}

/// One more part before others stands before their text.
proof fn lemma_joined_prepend(first: Seq<char>, rest: Seq<Seq<char>>, separator: Seq<char>)
    requires
        rest.len() > 0,
    ensures
        joined(seq![first] + rest, separator) == first + separator + joined(rest, separator),
    decreases rest.len(),
{
    let all = seq![first] + rest;
    if rest.len() == 1 {
        assert(all.drop_last() =~= seq![first]);
        assert(joined(seq![first], separator) == first);
    } else {
        lemma_joined_prepend(first, rest.drop_last(), separator);
        assert(all.drop_last() =~= seq![first] + rest.drop_last());
        assert(all.last() == rest.last());
        assert(first + separator + joined(rest.drop_last(), separator) + separator + rest.last() =~= first + separator
            + (joined(rest.drop_last(), separator) + separator + rest.last()));
    }
}

/// `text` has no carriage return before a line feed and does not end in a line feed.
pub open spec fn plain_lines(text: Seq<char>) -> bool {
    &&& forall|i: int| 0 < i < text.len() ==> !(text[i] == '\n' && #[trigger] text[i - 1] == '\r')
    &&& text.len() > 0 ==> text.last() != '\n'
}

/// What lines join to is the text that they were taken from.
pub proof fn law_lines_join(text: Seq<char>)
    requires
        plain_lines(text),
    ensures
        joined(lines_of(text), seq!['\n']) == text,
        text.len() > 0 ==> lines_of(text).len() > 0,
    decreases text.len(),
{
    lemma_line_end(text);
    let end = line_end(text);
    if text.len() > 0 && end < text.len() {
        let rest = text.skip(end + 1);
        assert(rest.len() > 0) by {
            if rest.len() == 0 {
                assert(text.last() == text[end]);
            }
        }
        assert forall|i: int| 0 < i < rest.len() implies !(rest[i] == '\n' && #[trigger] rest[i - 1] == '\r') by {
            assert(text[end + 1 + i - 1] == rest[i - 1]);
        }
        law_lines_join(rest);
        assert(without_return(text.take(end)) =~= text.take(end)) by {
            if end > 0 {
                assert(text[end - 1] != '\r');
                assert(text.take(end).last() == text[end - 1]);
            }
        }
        lemma_joined_prepend(text.take(end), lines_of(rest), seq!['\n']);
        assert(text =~= text.take(end) + seq!['\n'] + rest);
    }
}

/// The characters with the Unicode property `White_Space`.
pub open spec fn white_space(c: char) -> bool {
    let code = c as u32;
    ||| 0x9 <= code <= 0xd
    ||| code == 0x20
    ||| code == 0x85
    ||| code == 0xa0
    ||| code == 0x1680
    ||| 0x2000 <= code <= 0x200a
    ||| code == 0x2028
    ||| code == 0x2029
    ||| code == 0x202f
    ||| code == 0x205f
    ||| code == 0x3000
}

/// `char::is_whitespace` tells whether a character has the Unicode property `White_Space`.
#[verifier::external_body]
fn is_white_space(c: char) -> (white: bool)
    ensures
        white == white_space(c),
{
    c.is_whitespace()
}

/// `text` holds nothing but white space.
pub open spec fn blank(text: Seq<char>) -> bool {
    forall|i: int| 0 <= i < text.len() ==> white_space(#[trigger] text[i])
}

/// Whether `text` holds nothing but white space.
pub fn is_blank(text: &str) -> (result: bool)
    ensures
        result == blank(text@),
{
    let chars = chars_of(text);
    let mut index: usize = 0;
    while index < chars.len()
        invariant
            index <= chars@.len(),
            chars@ == text@,
            forall|i: int| 0 <= i < index ==> white_space(#[trigger] chars@[i]),
        decreases chars@.len() - index,
    {
        if !is_white_space(chars[index]) {
            return false;
        }
        index = index + 1;
    }
    true
}

/// The digit character of `n`, which is below ten.
pub open spec fn digit(n: nat) -> char {
    ('0' as u32 + n) as char
}

/// The decimal digits of `n`, without leading zeros.
pub open spec fn decimal(n: nat) -> Seq<char>
    decreases n,
{
    if n < 10 {
        seq![digit(n)]
    } else {
        decimal(n / 10).push(digit(n % 10))
    }
}

/// The value that a sequence of digit characters denotes in base ten.
pub open spec fn digits_value(digits: Seq<char>) -> nat
    decreases digits.len(),
{
    if digits.len() == 0 {
        0
    } else {
        digits_value(digits.drop_last()) * 10 + (digits.last() as u32 - '0' as u32) as nat
    }
}

/// `c` is one of the ten ASCII digits.
pub open spec fn is_digit(c: char) -> bool {
    '0' <= c <= '9'
}

/// `text` is made of ASCII digits alone, at least one.
pub open spec fn all_digits(text: Seq<char>) -> bool {
    &&& text.len() > 0
    &&& forall|i: int| 0 <= i < text.len() ==> is_digit(#[trigger] text[i])
}

/// The digits that a decimal number is read from: what follows an optional plus sign.
pub open spec fn digits_part(text: Seq<char>) -> Seq<char> {
    if text.len() > 0 && text[0] == '+' {
        text.skip(1)
    } else {
        text
    }
}

/// What `text` denotes as an unsigned number no larger than `maximum`.
pub open spec fn parsed_decimal(text: Seq<char>, maximum: nat) -> Option<nat> {
    if all_digits(digits_part(text)) && digits_value(digits_part(text)) <= maximum {
        Some(digits_value(digits_part(text)))
    } else {
        None
    }
}

/// A decimal text is made of digits and denotes its number.
pub proof fn lemma_decimal(n: nat)
    ensures
        all_digits(decimal(n)),
        digits_value(decimal(n)) == n,
    decreases n,
{
    if n < 10 {
        assert(decimal(n).drop_last() =~= Seq::<char>::empty());
        assert(digits_value(Seq::<char>::empty()) == 0);
    } else {
        lemma_decimal(n / 10);
        assert(decimal(n).drop_last() =~= decimal(n / 10));
        assert(decimal(n).last() == digit(n % 10));
    }
}

/// Reading a decimal text gives back the number that it was written from.
pub proof fn law_decimal_round_trip(n: nat, maximum: nat)
    requires
        n <= maximum,
    ensures
        parsed_decimal(decimal(n), maximum) == Some(n),
{
    lemma_decimal(n);
}

/// A longer row of digits denotes no smaller number.
proof fn lemma_digits_value_take(digits: Seq<char>, count: int)
    requires
        0 <= count <= digits.len(),
        forall|i: int| 0 <= i < digits.len() ==> is_digit(#[trigger] digits[i]),
    ensures
        digits_value(digits.take(count)) <= digits_value(digits),
    decreases digits.len() - count,
{
    if count < digits.len() {
        lemma_digits_value_take(digits, count + 1);
        assert(digits.take(count + 1).drop_last() =~= digits.take(count));
        assert(digits.take(count + 1).last() == digits[count]);
    } else {
        assert(digits.take(count) =~= digits);
    }
}

/// The digit character of `n`.
fn digit_char(n: u64) -> (c: char)
    requires
        n < 10,
    ensures
        c == digit(n as nat),
{
    if n == 0 {
        '0'
    } else if n == 1 {
        '1'
    } else if n == 2 {
        '2'
    } else if n == 3 {
        '3'
    } else if n == 4 {
        '4'
    } else if n == 5 {
        '5'
    } else if n == 6 {
        '6'
    } else if n == 7 {
        '7'
    } else if n == 8 {
        '8'
    } else {
        '9'
    }
}

/// `n` in decimal digits.
pub fn decimal_text(n: u64) -> (text: String)
    ensures
        text@ == decimal(n as nat),
    decreases n,
{
    if n < 10 {
        let mut text = String::new();
        text.push(digit_char(n));
        assert(text@ =~= decimal(n as nat));
        text
    } else {
        let mut text = decimal_text(n / 10);
        text.push(digit_char(n % 10));
        text
    }
}

/// The unsigned number that `text` denotes, if it denotes one that fits.
pub fn parse_decimal(text: &str) -> (number: Option<usize>)
    ensures
        match number {
            Some(value) => parsed_decimal(text@, usize::MAX as nat) == Some(value as nat),
            None => parsed_decimal(text@, usize::MAX as nat) is None,
        },
{
    let chars = chars_of(text);
    let start: usize = if chars.len() > 0 && chars[0] == '+' {
        1
    } else {
        0
    };
    let ghost digits = digits_part(text@);
    assert(digits =~= chars@.skip(start as int));
    if start == chars.len() {
        return None;
    }
    let mut value: usize = 0;
    let mut index: usize = start;
    assert(digits.take(0) =~= Seq::<char>::empty());
    while index < chars.len()
        invariant
            start <= index <= chars@.len(),
            chars@ == text@,
            digits == digits_part(text@),
            digits == chars@.skip(start as int),
            value == digits_value(digits.take(index - start)),
            forall|i: int| 0 <= i < index - start ==> is_digit(#[trigger] digits[i]),
        decreases chars@.len() - index,
    {
        let c: char = chars[index];
        assert(c == digits[index - start]);
        if c < '0' || c > '9' {
            return None;
        }
        let step: usize = (c as u32 - '0' as u32) as usize;
        let ghost count = index - start;
        assert(digits.take(count + 1).drop_last() =~= digits.take(count));
        assert(digits.take(count + 1).last() == c);
        assert(digits_value(digits.take(count + 1)) == value * 10 + step);
        let scaled: Option<usize> = value.checked_mul(10);
        if scaled.is_none() {
            proof {
                if all_digits(digits) {
                    lemma_digits_value_take(digits, count + 1);
                }
            }
            return None;
        }
        let next: Option<usize> = scaled.unwrap().checked_add(step);
        if next.is_none() {
            proof {
                if all_digits(digits) {
                    lemma_digits_value_take(digits, count + 1);
                }
            }
            return None;
        }
        value = next.unwrap();
        index = index + 1;
    }
    assert(digits.take(index - start) =~= digits);
    Some(value)
}

/// Byte-wise lexicographic order: `left` comes before `right`.
pub open spec fn bytes_before(left: Seq<u8>, right: Seq<u8>) -> bool
    decreases left.len(),
{
    if right.len() == 0 {
        false
    } else if left.len() == 0 {
        true
    } else if left[0] != right[0] {
        left[0] < right[0]
    } else {
        bytes_before(left.drop_first(), right.drop_first())
    }
}

/// `left` comes before `right` in the byte-wise order of their encodings.
pub open spec fn text_before(left: Seq<char>, right: Seq<char>) -> bool {
    bytes_before(encode_utf8(left), encode_utf8(right))
}

/// The byte-wise order decides on any two different sequences, one way only.
pub proof fn lemma_bytes_before_total(left: Seq<u8>, right: Seq<u8>)
    ensures
        left == right ==> !bytes_before(left, right),
        left != right ==> bytes_before(left, right) != bytes_before(right, left),
    decreases left.len(),
{
    if left.len() > 0 && right.len() > 0 && left[0] == right[0] {
        lemma_bytes_before_total(left.drop_first(), right.drop_first());
        if left.drop_first() == right.drop_first() {
            assert(left =~= seq![left[0]] + left.drop_first());
            assert(right =~= seq![right[0]] + right.drop_first());
        }
    } else if left.len() == 0 && right.len() == 0 {
        assert(left =~= right);
    }
}

/// The byte-wise order is transitive.
pub proof fn lemma_bytes_before_transitive(a: Seq<u8>, b: Seq<u8>, c: Seq<u8>)
    requires
        bytes_before(a, b),
        bytes_before(b, c),
    ensures
        bytes_before(a, c),
    decreases a.len(),
{
    if a.len() > 0 && a[0] == b[0] && b[0] == c[0] {
        lemma_bytes_before_transitive(a.drop_first(), b.drop_first(), c.drop_first());
    }
}

/// Whether `left` comes before `right`, compared byte by byte.
pub fn comes_before(left: &str, right: &str) -> (before: bool)
    ensures
        before == text_before(left@, right@),
{
    let a = left.as_bytes();
    let b = right.as_bytes();
    let mut index: usize = 0;
    assert(a@.skip(0) =~= a@);
    assert(b@.skip(0) =~= b@);
    while index < a.len() && index < b.len()
        invariant
            index <= a@.len(),
            index <= b@.len(),
            a@ == encode_utf8(left@),
            b@ == encode_utf8(right@),
            bytes_before(a@, b@) == bytes_before(a@.skip(index as int), b@.skip(index as int)),
        decreases a@.len() - index,
    {
        if a[index] != b[index] {
            return a[index] < b[index];
        }
        assert(a@.skip(index as int).drop_first() =~= a@.skip(index + 1));
        assert(b@.skip(index as int).drop_first() =~= b@.skip(index + 1));
        index = index + 1;
    }
    a.len() < b.len()
}

/// The byte-wise order of texts decides on any two different texts, one way only.
pub proof fn lemma_text_before_total(left: Seq<char>, right: Seq<char>)
    ensures
        left == right ==> !text_before(left, right),
        left != right ==> text_before(left, right) != text_before(right, left),
{
    lemma_bytes_before_total(encode_utf8(left), encode_utf8(right));
    if encode_utf8(left) == encode_utf8(right) {
        lemma_encode_injective(left, right);
    }
}

/// The byte-wise order of texts is transitive.
pub proof fn lemma_text_before_transitive(a: Seq<char>, b: Seq<char>, c: Seq<char>)
    requires
        text_before(a, b),
        text_before(b, c),
    ensures
        text_before(a, c),
{
    lemma_bytes_before_transitive(encode_utf8(a), encode_utf8(b), encode_utf8(c));
}

/// A text holds another exactly where it is that text with something before it and something behind it.
pub proof fn law_occurrence(text: Seq<char>, query: Seq<char>)
    ensures
        occurs(text, query) <==> exists|before: Seq<char>, behind: Seq<char>|
            #[trigger] (before + query + behind) == text,
{
    if occurs(text, query) {
        let at = choose|at: int| occurs_at(text, query, at);
        let before = text.take(at);
        let behind = text.skip(at + query.len());
        assert(before + query + behind =~= text);
    }
    if exists|before: Seq<char>, behind: Seq<char>| #[trigger] (before + query + behind) == text {
        let (before, behind) = choose|before: Seq<char>, behind: Seq<char>|
            #[trigger] (before + query + behind) == text;
        assert((before + query + behind).subrange(before.len() as int, (before.len() + query.len()) as int) =~= query);
        assert(occurs_at(text, query, before.len() as int));
    }
}

/// Joined parts: nothing from none, a single part as it is, and one more part behind a separator.
pub proof fn law_joining(parts: Seq<Seq<char>>, part: Seq<char>, separator: Seq<char>)
    ensures
        joined(Seq::<Seq<char>>::empty(), separator).len() == 0,
        joined(seq![part], separator) == part,
        parts.len() > 0 ==> joined(parts.push(part), separator) == joined(parts, separator) + separator + part,
{
    assert(parts.push(part).drop_last() =~= parts);
}

/// Every part stands in what the parts are joined to.
pub proof fn law_joined_holds_parts(parts: Seq<Seq<char>>, separator: Seq<char>, index: int)
    requires
        0 <= index < parts.len(),
    ensures
        occurs(joined(parts, separator), parts[index]),
    decreases parts.len(),
{
    let whole = joined(parts, separator);
    if parts.len() == 1 {
        assert(whole.subrange(0, whole.len() as int) =~= whole);
        assert(occurs_at(whole, parts[index], 0));
    } else if index == parts.len() - 1 {
        let at = whole.len() - parts.last().len();
        assert(whole.subrange(at, whole.len() as int) =~= parts.last());
        assert(occurs_at(whole, parts[index], at));
    } else {
        let shorter = joined(parts.drop_last(), separator);
        law_joined_holds_parts(parts.drop_last(), separator, index);
        let at = choose|at: int| occurs_at(shorter, parts.drop_last()[index], at);
        assert(whole.subrange(at, at + parts[index].len()) =~= shorter.subrange(at, at + parts[index].len()));
        assert(occurs_at(whole, parts[index], at));
    }
}

/// The lines of a text: none of nothing, the text itself where it holds no line feed, and otherwise what
/// stands before the first line feed, without a carriage return right before it, then the lines behind it.
pub proof fn law_lines(line: Seq<char>, rest: Seq<char>)
    requires
        !line.contains('\n'),
    ensures
        lines_of(Seq::empty()).len() == 0,
        line.len() > 0 ==> lines_of(line) == seq![line],
        lines_of(line + seq!['\n'] + rest) == seq![
            if line.len() > 0 && line.last() == '\r' {
                line.drop_last()
            } else {
                line
            },
        ] + lines_of(rest),
{
    let whole = line + seq!['\n'] + rest;
    assert forall|i: int| 0 <= i < line.len() implies line[i] != '\n' by {
        assert(line.contains(line[i]));
    }
    lemma_line_end_unique(line, line.len() as int);
    lemma_line_end_unique(whole, line.len() as int);
    assert(whole.take(line.len() as int) =~= line);
    assert(whole.skip(line.len() as int + 1) =~= rest);
}

} // verus!
