//! JSON values as the history and note tools read and build them.

use vstd::prelude::*;
use vstd::utf8::*;

use crate::text::decimal;
use crate::text::lemma_decimal;
use crate::text::same_text;
use crate::text::utf8_len;

verus! {

/// A value of `serde_json`.
#[verifier::external_type_specification]
#[verifier::external_body]
pub struct ExValue(serde_json::Value);

/// A number of `serde_json`.
#[verifier::external_type_specification]
#[verifier::external_body]
pub struct ExNumber(serde_json::Number);

/// What a JSON number holds: an unsigned or a negative integer, or the text of any other number.
#[verifier::ext_equal]
pub enum NumberView {
    Unsigned(u64),
    Negative(i64),
    Float(Seq<char>),
}

/// What a JSON value holds.
#[verifier::ext_equal]
pub enum JsonView {
    Null,
    Bool(bool),
    Number(NumberView),
    Text(Seq<char>),
    Array(Seq<JsonView>),
    Object(Map<Seq<char>, JsonView>),
}

/// What a number of `serde_json` holds.
pub uninterp spec fn number_holds(number: serde_json::Number) -> NumberView;

/// What a value of `serde_json` holds.
pub uninterp spec fn value_holds(value: serde_json::Value) -> JsonView;

/// The compact text that `serde_json` writes for a value, object keys in their byte-wise order.
pub uninterp spec fn json_text(value: JsonView) -> Seq<char>;

/// What `serde_json` reads from the bytes of one JSON text, or the text of its error.
pub uninterp spec fn json_parsed(bytes: Seq<u8>) -> Result<JsonView, Seq<char>>;

/// The bytes are a JSON text that reads as `value`.
pub open spec fn reads_as(bytes: Seq<u8>, value: JsonView) -> bool {
    json_parsed(bytes) == Ok::<JsonView, Seq<char>>(value)
}

/// What the outcome of reading a JSON text holds.
pub open spec fn parse_outcome(outcome: Result<serde_json::Value, String>) -> Result<JsonView, Seq<char>> {
    match outcome {
        Ok(value) => Ok(value_holds(value)),
        Err(error) => Err(error@),
    }
}

/// The value has no number but integers and nests at most `depth` arrays and objects.
pub open spec fn plain_within(value: JsonView, depth: nat) -> bool
    decreases depth,
{
    match value {
        JsonView::Number(number) => !(number is Float),
        JsonView::Array(items) => depth > 0 && forall|i: int|
            0 <= i < items.len() ==> #[trigger] plain_within(items[i], (depth - 1) as nat),
        JsonView::Object(fields) => depth > 0 && forall|key: Seq<char>|
            fields.contains_key(key) ==> #[trigger] plain_within(fields[key], (depth - 1) as nat),
        _ => true,
    }
}

/// The deepest nesting that `serde_json` reads back.
pub open spec fn nesting_limit() -> nat {
    127
}

/// A JSON value. Of two fields with one name the later counts.
#[derive(Debug)]
pub enum Json {
    Null,
    Bool(bool),
    Number(serde_json::Number),
    Text(String),
    Array(Vec<Json>),
    Object(Vec<(String, Json)>),
}

/// What `json` holds.
pub open spec fn json_view(json: Json) -> JsonView
    decreases json,
{
    match json {
        Json::Null => JsonView::Null,
        Json::Bool(value) => JsonView::Bool(value),
        Json::Number(number) => JsonView::Number(number_holds(number)),
        Json::Text(text) => JsonView::Text(text@),
        Json::Array(items) => JsonView::Array(items_view(items@)),
        Json::Object(fields) => JsonView::Object(fields_view(fields@)),
    }
}

/// What a row of values holds.
pub open spec fn items_view(items: Seq<Json>) -> Seq<JsonView>
    decreases items,
{
    if items.len() == 0 {
        Seq::empty()
    } else {
        items_view(items.drop_last()).push(json_view(items.last()))
    }
}

/// What a row of fields holds.
pub open spec fn fields_view(fields: Seq<(String, Json)>) -> Map<Seq<char>, JsonView>
    decreases fields,
{
    if fields.len() == 0 {
        Map::empty()
    } else {
        fields_view(fields.drop_last()).insert(fields.last().0@, json_view(fields.last().1))
    }
}

impl View for Json {
    type V = JsonView;

    open spec fn view(&self) -> JsonView {
        json_view(*self)
    }
}

/// The field `name` of an object.
pub open spec fn field_of(value: JsonView, name: Seq<char>) -> Option<JsonView> {
    match value {
        JsonView::Object(fields) => if fields.contains_key(name) {
            Some(fields[name])
        } else {
            None
        },
        _ => None,
    }
}

/// The text that a value is.
pub open spec fn text_in(value: JsonView) -> Option<Seq<char>> {
    match value {
        JsonView::Text(text) => Some(text),
        _ => None,
    }
}

/// The text that the field `name` is.
pub open spec fn text_field(value: JsonView, name: Seq<char>) -> Option<Seq<char>> {
    match field_of(value, name) {
        Some(found) => text_in(found),
        None => None,
    }
}

/// The boolean that a value is.
pub open spec fn bool_in(value: JsonView) -> Option<bool> {
    match value {
        JsonView::Bool(flag) => Some(flag),
        _ => None,
    }
}

/// The boolean that the field `name` is, false where it is none.
pub open spec fn flag_field(value: JsonView, name: Seq<char>) -> bool {
    match field_of(value, name) {
        Some(found) => bool_in(found) == Some(true),
        None => false,
    }
}

/// The unsigned integer that a value is.
pub open spec fn unsigned_in(value: JsonView) -> Option<u64> {
    match value {
        JsonView::Number(NumberView::Unsigned(number)) => Some(number),
        _ => None,
    }
}

/// The signed integer that a value is.
pub open spec fn signed_in(value: JsonView) -> Option<i64> {
    match value {
        JsonView::Number(NumberView::Unsigned(number)) => if number <= i64::MAX {
            Some(number as i64)
        } else {
            None
        },
        JsonView::Number(NumberView::Negative(number)) => Some(number),
        _ => None,
    }
}

/// The value that an unsigned integer is written as.
pub open spec fn unsigned_view(number: u64) -> JsonView {
    JsonView::Number(NumberView::Unsigned(number))
}

/// An optional text, null where there is none.
pub open spec fn text_or_null(text: Option<Seq<char>>) -> JsonView {
    match text {
        Some(text) => JsonView::Text(text),
        None => JsonView::Null,
    }
}

/// An optional unsigned integer, null where there is none.
pub open spec fn unsigned_or_null(number: Option<u64>) -> JsonView {
    match number {
        Some(number) => unsigned_view(number),
        None => JsonView::Null,
    }
}

/// An array of texts.
pub open spec fn texts_value(texts: Seq<Seq<char>>) -> JsonView {
    JsonView::Array(texts.map_values(|text: Seq<char>| JsonView::Text(text)))
}

/// The object's fields, none for any other value.
pub open spec fn fields_in(value: JsonView) -> Map<Seq<char>, JsonView> {
    match value {
        JsonView::Object(fields) => fields,
        _ => Map::empty(),
    }
}

/// The object with the field `name` set.
pub open spec fn with_field(value: JsonView, name: Seq<char>, field: JsonView) -> JsonView {
    JsonView::Object(fields_in(value).insert(name, field))
}

/// The items of the array in the field `name`, none where it is no array.
pub open spec fn items_in(value: JsonView, name: Seq<char>) -> Seq<JsonView> {
    match field_of(value, name) {
        Some(JsonView::Array(items)) => items,
        _ => Seq::empty(),
    }
}

/// The field `name` is an array.
pub open spec fn has_array(value: JsonView, name: Seq<char>) -> bool {
    field_of(value, name) matches Some(JsonView::Array(_))
}

/// What the values in a row hold.
pub open spec fn values_hold(values: Seq<serde_json::Value>) -> Seq<JsonView> {
    values.map_values(|value: serde_json::Value| value_holds(value))
}

/// What a row of named values holds.
pub open spec fn entries_hold(entries: Seq<(String, serde_json::Value)>) -> Map<Seq<char>, JsonView>
    decreases entries.len(),
{
    if entries.len() == 0 {
        Map::empty()
    } else {
        entries_hold(entries.drop_last()).insert(entries.last().0@, value_holds(entries.last().1))
    }
}

/// A value of `serde_json`, taken apart by one level.
enum ValueParts<'a> {
    Null,
    Bool(bool),
    Number(&'a serde_json::Number),
    Text(&'a String),
    Array(&'a Vec<serde_json::Value>),
    /// Each name once.
    Object(Vec<(&'a String, &'a serde_json::Value)>),
}

/// What a row of borrowed named values holds.
spec fn pairs_hold(pairs: Seq<(&String, &serde_json::Value)>) -> Map<Seq<char>, JsonView>
    decreases pairs.len(),
{
    if pairs.len() == 0 {
        Map::empty()
    } else {
        pairs_hold(pairs.drop_last()).insert(pairs.last().0@, value_holds(*pairs.last().1))
    }
}

/// What a value holds that was taken apart.
spec fn parts_hold(parts: ValueParts) -> JsonView {
    match parts {
        ValueParts::Null => JsonView::Null,
        ValueParts::Bool(flag) => JsonView::Bool(flag),
        ValueParts::Number(number) => JsonView::Number(number_holds(*number)),
        ValueParts::Text(text) => JsonView::Text(text@),
        ValueParts::Array(values) => JsonView::Array(values_hold(values@)),
        ValueParts::Object(pairs) => JsonView::Object(pairs_hold(pairs@)),
    }
}

/// The variants of `serde_json::Value`, told apart; `serde_json::Map::iter` gives each name of an object
/// once, with its value.
#[verifier::external_body]
fn value_parts<'a>(value: &'a serde_json::Value) -> (parts: ValueParts<'a>)
    ensures
        parts_hold(parts) == value_holds(*value),
        parts matches ValueParts::Object(pairs) ==> forall|i: int, j: int|
            0 <= i < j < pairs@.len() ==> (#[trigger] pairs@[i]).0@ != (#[trigger] pairs@[j]).0@,
{
    match value {
        serde_json::Value::Null => ValueParts::Null,
        serde_json::Value::Bool(flag) => ValueParts::Bool(*flag),
        serde_json::Value::Number(number) => ValueParts::Number(number),
        serde_json::Value::String(text) => ValueParts::Text(text),
        serde_json::Value::Array(values) => ValueParts::Array(values),
        serde_json::Value::Object(fields) => ValueParts::Object(fields.iter().collect()),
    }
}

/// A named value whose name no later one has is the one that counts.
proof fn lemma_pairs_last(pairs: Seq<(&String, &serde_json::Value)>, index: int)
    requires
        0 <= index < pairs.len(),
        forall|later: int| index < later < pairs.len() ==> (#[trigger] pairs[later]).0@ != pairs[index].0@,
    ensures
        pairs_hold(pairs).dom().finite(),
        pairs_hold(pairs).contains_key(pairs[index].0@),
        pairs_hold(pairs)[pairs[index].0@] == value_holds(*pairs[index].1),
    decreases pairs.len(),
{
    lemma_pairs_finite(pairs);
    if index < pairs.len() - 1 {
        lemma_pairs_last(pairs.drop_last(), index);
    }
}

/// There are finitely many names in a row.
proof fn lemma_pairs_finite(pairs: Seq<(&String, &serde_json::Value)>)
    ensures
        pairs_hold(pairs).dom().finite(),
    decreases pairs.len(),
{
    if pairs.len() > 0 {
        lemma_pairs_finite(pairs.drop_last());
    }
}

/// `serde_json::Number::from` makes the number of an unsigned integer.
#[verifier::external_body]
fn number_from(value: u64) -> (number: serde_json::Number)
    ensures
        number_holds(number) == NumberView::Unsigned(value),
{
    serde_json::Number::from(value)
}

/// `serde_json::Number::as_u64` gives the integer that is not negative, and nothing for any other
/// number.
#[verifier::external_body]
fn number_as_u64(number: &serde_json::Number) -> (value: Option<u64>)
    ensures
        value == unsigned_in(JsonView::Number(number_holds(*number))),
{
    number.as_u64()
}

/// `serde_json::Number::as_i64` gives the integer that fits `i64`, and nothing for any other number.
#[verifier::external_body]
fn number_as_i64(number: &serde_json::Number) -> (value: Option<i64>)
    ensures
        value == signed_in(JsonView::Number(number_holds(*number))),
{
    number.as_i64()
}

/// `serde_json::Number::clone` gives a number that holds the same.
#[verifier::external_body]
fn number_clone(number: &serde_json::Number) -> (copy: serde_json::Number)
    ensures
        number_holds(copy) == number_holds(*number),
{
    number.clone()
}

/// `serde_json::Value::Null` holds null.
#[verifier::external_body]
fn value_null() -> (value: serde_json::Value)
    ensures
        value_holds(value) == JsonView::Null,
{
    serde_json::Value::Null
}

/// `serde_json::Value::Bool` holds the boolean.
#[verifier::external_body]
fn value_bool(flag: bool) -> (value: serde_json::Value)
    ensures
        value_holds(value) == JsonView::Bool(flag),
{
    serde_json::Value::Bool(flag)
}

/// `serde_json::Value::Number` holds what the number holds.
#[verifier::external_body]
fn value_number(number: serde_json::Number) -> (value: serde_json::Value)
    ensures
        value_holds(value) == JsonView::Number(number_holds(number)),
{
    serde_json::Value::Number(number)
}

/// `serde_json::Value::String` holds the text.
#[verifier::external_body]
fn value_string(text: String) -> (value: serde_json::Value)
    ensures
        value_holds(value) == JsonView::Text(text@),
{
    serde_json::Value::String(text)
}

/// `serde_json::Value::Array` holds the values in their order.
#[verifier::external_body]
fn value_array(values: Vec<serde_json::Value>) -> (value: serde_json::Value)
    ensures
        value_holds(value) == JsonView::Array(values_hold(values@)),
{
    serde_json::Value::Array(values)
}

/// `serde_json::Map`, collected from named values of which no two share a name, holds each name with its
/// value.
#[verifier::external_body]
fn value_object(entries: Vec<(String, serde_json::Value)>) -> (value: serde_json::Value)
    requires
        forall|i: int, j: int|
            0 <= i < j < entries@.len() ==> (#[trigger] entries@[i]).0@ != (#[trigger] entries@[j]).0@,
    ensures
        value_holds(value) == JsonView::Object(entries_hold(entries@)),
{
    serde_json::Value::Object(entries.into_iter().collect())
}

/// `serde_json::Value::to_string` writes the value's compact text. The text depends on what the
/// value holds alone, its size is the sum of its parts, and it reads back as the same value where
/// no number but integers occurs and the nesting stays within what the reader takes.
#[verifier::external_body]
fn value_text(value: &serde_json::Value) -> (text: String)
    ensures
        text@ == json_text(value_holds(*value)),
        utf8_len(text@) == json_size(value_holds(*value)),
        plain_within(value_holds(*value), nesting_limit()) ==> reads_as(encode_utf8(text@), value_holds(*value)),
{
    value.to_string()
}

/// `serde_json::from_slice` reads one JSON text. The outcome, and the text of the error, depend on
/// the bytes alone.
#[verifier::external_body]
fn value_parse(bytes: &[u8]) -> (outcome: Result<serde_json::Value, String>)
    ensures
        json_parsed(bytes@) == parse_outcome(outcome),
{
    serde_json::from_slice(bytes).map_err(|error| error.to_string())
}

/// `serde_json::Value::eq` compares what the values hold. With a number that is no integer on both
/// sides it compares as numbers do, which `requires` leaves out.
#[verifier::external_body]
fn value_equal(left: &serde_json::Value, right: &serde_json::Value) -> (equal: bool)
    requires
        plain_within(value_holds(*right), nesting_limit()),
    ensures
        equal == (value_holds(*left) == value_holds(*right)),
{
    left == right
}

/// Size of a character inside a JSON string.
pub open spec fn escaped_size(c: char) -> nat {
    if c == '"' || c == '\\' || c == '\u{8}' || c == '\t' || c == '\n' || c == '\u{c}' || c == '\r' {
        2
    } else if (c as u32) < 0x20 {
        6
    } else {
        crate::text::char_width(c)
    }
}

/// Size of the characters of a JSON string without its quotes.
pub open spec fn escaped_text_size(text: Seq<char>) -> nat
    decreases text.len(),
{
    if text.len() == 0 {
        0
    } else {
        escaped_text_size(text.drop_last()) + escaped_size(text.last())
    }
}

/// Size of a JSON string.
pub open spec fn quoted_size(text: Seq<char>) -> nat {
    2 + escaped_text_size(text)
}

/// Number of decimal digits.
pub open spec fn digit_count(n: nat) -> nat
    decreases n,
{
    if n < 10 {
        1
    } else {
        1 + digit_count(n / 10)
    }
}

/// Size of a JSON number.
pub open spec fn number_size(number: NumberView) -> nat {
    match number {
        NumberView::Unsigned(value) => digit_count(value as nat),
        NumberView::Negative(value) => 1 + digit_count((0 - value) as nat),
        NumberView::Float(text) => utf8_len(text),
    }
}

/// Size of the compact text of a value in UTF-8 bytes.
pub open spec fn json_size(value: JsonView) -> nat
    decreases value, 0nat,
{
    match value {
        JsonView::Null => 4,
        JsonView::Bool(flag) => if flag {
            4
        } else {
            5
        },
        JsonView::Number(number) => number_size(number),
        JsonView::Text(text) => quoted_size(text),
        JsonView::Array(items) => if items.len() == 0 {
            2
        } else {
            1 + items_size(items)
        },
        JsonView::Object(fields) => if fields.dom().len() == 0 {
            2
        } else {
            1 + fields_size(fields, fields.dom().to_seq())
        },
    }
}

/// Size of the values in a row, each with the comma or bracket behind it.
pub open spec fn items_size(items: Seq<JsonView>) -> nat
    decreases items, 0nat,
{
    if items.len() == 0 {
        0
    } else {
        items_size(items.drop_last()) + json_size(items.last()) + 1
    }
}

/// Size of the fields with the given keys, each with its colon and the comma or brace behind it.
pub open spec fn fields_size(fields: Map<Seq<char>, JsonView>, keys: Seq<Seq<char>>) -> nat
    decreases fields, keys.len(),
{
    if keys.len() == 0 {
        0
    } else {
        fields_size(fields, keys.drop_last()) + (if fields.dom().finite() && fields.contains_key(keys.last()) {
            quoted_size(keys.last()) + 1 + json_size(fields[keys.last()]) + 1
        } else {
            0
        })
    }
}

/// Size of one field with its colon and the comma or brace behind it.
pub open spec fn field_size(fields: Map<Seq<char>, JsonView>, key: Seq<char>) -> nat {
    if fields.dom().finite() && fields.contains_key(key) {
        quoted_size(key) + 1 + json_size(fields[key]) + 1
    } else {
        0
    }
}

/// A row made of a set holds each of its members once.
proof fn lemma_set_row(keys: Set<Seq<char>>)
    requires
        keys.finite(),
    ensures
        keys.to_seq().no_duplicates(),
        forall|key: Seq<char>| #![auto] keys.to_seq().contains(key) <==> keys.contains(key),
        keys.to_seq().len() == keys.len(),
    decreases keys.len(),
{
    keys.lemma_to_seq_to_set_id();
    assert forall|key: Seq<char>| #![auto] keys.to_seq().contains(key) <==> keys.contains(key) by {
        assert(keys.to_seq().to_set().contains(key) <==> keys.to_seq().contains(key));
    }
    if keys.len() > 0 {
        let first = keys.choose();
        assert(keys.contains(first)) by {
            if keys == Set::<Seq<char>>::empty() {
                assert(keys.len() == 0);
            }
            assert(exists|key: Seq<char>| keys.contains(key));
        }
        let rest = keys.remove(first);
        lemma_set_row(rest);
        let row = keys.to_seq();
        assert(row =~= seq![first] + rest.to_seq());
        assert forall|i: int, j: int| 0 <= i < row.len() && 0 <= j < row.len() && i != j implies row[i] != row[j] by {
            if i == 0 {
                assert(rest.to_seq().contains(rest.to_seq()[j - 1]));
            } else if j == 0 {
                assert(rest.to_seq().contains(rest.to_seq()[i - 1]));
            }
        }
    }
}

/// Leaving out one key leaves out its size.
proof fn lemma_fields_size_remove(fields: Map<Seq<char>, JsonView>, keys: Seq<Seq<char>>, index: int)
    requires
        0 <= index < keys.len(),
    ensures
        fields_size(fields, keys) == fields_size(fields, keys.remove(index)) + field_size(fields, keys[index]),
    decreases keys.len(),
{
    if index == keys.len() - 1 {
        assert(keys.remove(index) =~= keys.drop_last());
    } else {
        lemma_fields_size_remove(fields, keys.drop_last(), index);
        assert(keys.remove(index).drop_last() =~= keys.drop_last().remove(index));
        assert(keys.remove(index).last() == keys.last());
    }
}

/// The order of the keys does not matter.
proof fn lemma_fields_size_order(fields: Map<Seq<char>, JsonView>, a: Seq<Seq<char>>, b: Seq<Seq<char>>)
    requires
        a.no_duplicates(),
        b.no_duplicates(),
        forall|key: Seq<char>| a.contains(key) <==> b.contains(key),
    ensures
        fields_size(fields, a) == fields_size(fields, b),
    decreases a.len(),
{
    if a.len() == 0 {
        if b.len() > 0 {
            assert(b.contains(b[0]));
            assert(a.contains(b[0]));
        }
    } else {
        let key = a.last();
        assert(a.contains(key));
        let index = choose|i: int| 0 <= i < b.len() && b[i] == key;
        lemma_fields_size_remove(fields, b, index);
        let rest = b.remove(index);
        assert forall|other: Seq<char>| a.drop_last().contains(other) <==> rest.contains(other) by {
            if a.drop_last().contains(other) {
                let i = choose|i: int| 0 <= i < a.drop_last().len() && a.drop_last()[i] == other;
                assert(a[i] == other);
                assert(a.contains(other));
                let j = choose|j: int| 0 <= j < b.len() && b[j] == other;
                assert(rest[if j < index {
                    j
                } else {
                    j - 1
                }] == other);
            }
            if rest.contains(other) {
                let j = choose|j: int| 0 <= j < rest.len() && rest[j] == other;
                let at = if j < index {
                    j
                } else {
                    j + 1
                };
                assert(b[at] == other);
                assert(b.contains(other));
                let i = choose|i: int| 0 <= i < a.len() && a[i] == other;
                assert(a.drop_last()[i] == other);
            }
        }
        assert(rest.no_duplicates());
        lemma_fields_size_order(fields, a.drop_last(), rest);
    }
}

/// Only the fields under the keys matter.
proof fn lemma_fields_size_agree(
    left: Map<Seq<char>, JsonView>,
    right: Map<Seq<char>, JsonView>,
    keys: Seq<Seq<char>>,
)
    requires
        forall|i: int| 0 <= i < keys.len() ==> field_size(left, #[trigger] keys[i]) == field_size(right, keys[i]),
    ensures
        fields_size(left, keys) == fields_size(right, keys),
    decreases keys.len(),
{
    if keys.len() > 0 {
        lemma_fields_size_agree(left, right, keys.drop_last());
        assert(field_size(left, keys[keys.len() - 1]) == field_size(right, keys[keys.len() - 1]));
    }
}

/// Size of an object once a field was set.
pub proof fn lemma_size_with_field(value: JsonView, name: Seq<char>, field: JsonView)
    requires
        value is Object,
        fields_in(value).dom().finite(),
    ensures
        fields_in(with_field(value, name, field)).dom().finite(),
        fields_in(value).contains_key(name) ==> json_size(with_field(value, name, field)) == json_size(value)
            - json_size(fields_in(value)[name]) + json_size(field),
        !fields_in(value).contains_key(name) ==> json_size(with_field(value, name, field)) == json_size(value)
            + quoted_size(name) + 1 + json_size(field) + (if fields_in(value).dom().len() == 0 {
            0int
        } else {
            1
        }),
{
    let before = fields_in(value);
    let after = before.insert(name, field);
    let keys = before.dom().to_seq();
    lemma_set_row(before.dom());
    lemma_set_row(after.dom());
    if before.contains_key(name) {
        assert(after.dom() =~= before.dom());
        let index = choose|i: int| 0 <= i < keys.len() && keys[i] == name;
        lemma_fields_size_remove(before, keys, index);
        lemma_fields_size_remove(after, keys, index);
        let rest = keys.remove(index);
        assert forall|i: int| 0 <= i < rest.len() implies field_size(before, #[trigger] rest[i]) == field_size(
            after,
            rest[i],
        ) by {
            let at = if i < index {
                i
            } else {
                i + 1
            };
            assert(rest[i] == keys[at]);
            assert(keys.contains(keys[at]));
        }
        lemma_fields_size_agree(before, after, rest);
    } else {
        let longer = keys.push(name);
        assert forall|key: Seq<char>| after.dom().to_seq().contains(key) <==> longer.contains(key) by {
            assert(after.dom().to_seq().contains(key) <==> after.dom().contains(key));
            if keys.contains(key) {
                let i = choose|i: int| 0 <= i < keys.len() && keys[i] == key;
                assert(longer[i] == key);
            }
            if key == name {
                assert(longer[keys.len() as int] == key);
            }
            if longer.contains(key) && key != name {
                let i = choose|i: int| 0 <= i < longer.len() && longer[i] == key;
                assert(keys[i] == key);
                assert(keys.contains(key));
            }
        }
        assert(longer.no_duplicates()) by {
            assert forall|i: int, j: int| 0 <= i < longer.len() && 0 <= j < longer.len() && i != j implies longer[i]
                != longer[j] by {
                if i < keys.len() {
                    assert(keys.contains(keys[i]));
                }
                if j < keys.len() {
                    assert(keys.contains(keys[j]));
                }
            }
        }
        lemma_fields_size_order(after, after.dom().to_seq(), longer);
        assert(longer.drop_last() =~= keys);
        assert forall|i: int| 0 <= i < keys.len() implies field_size(before, #[trigger] keys[i]) == field_size(
            after,
            keys[i],
        ) by {
            assert(keys.contains(keys[i]));
        }
        lemma_fields_size_agree(before, after, keys);
        if before.dom().len() == 0 {
            assert(keys.len() == 0);
        }
    }
}

/// Setting a field adds no more than its name, its value, a colon and a comma.
pub proof fn lemma_size_with_field_bound(value: JsonView, name: Seq<char>, field: JsonView)
    requires
        value is Object,
        fields_in(value).dom().finite(),
    ensures
        with_field(value, name, field) is Object,
        fields_in(with_field(value, name, field)).dom().finite(),
        json_size(with_field(value, name, field)) <= json_size(value) + quoted_size(name) + 2 + json_size(field),
{
    lemma_size_with_field(value, name, field);
}

/// A JSON string takes at most six bytes for each byte of its text, and its quotes.
pub proof fn lemma_quoted_size_bound(text: Seq<char>)
    ensures
        quoted_size(text) <= 2 + 6 * utf8_len(text),
    decreases text.len(),
{
    if text.len() > 0 {
        lemma_quoted_size_bound(text.drop_last());
        crate::text::lemma_utf8_len_push(text.drop_last(), text.last());
        assert(text.drop_last().push(text.last()) =~= text);
    }
}

/// A character that JSON writes as one byte.
pub open spec fn plain_char(c: char) -> bool {
    0x20 <= (c as u32) < 0x80 && c != '"' && c != '\\'
}

/// A text of such characters takes one byte each.
pub proof fn lemma_plain_size(text: Seq<char>)
    requires
        forall|i: int| 0 <= i < text.len() ==> plain_char(#[trigger] text[i]),
    ensures
        quoted_size(text) == 2 + text.len(),
    decreases text.len(),
{
    if text.len() > 0 {
        lemma_plain_size(text.drop_last());
    }
}

/// Ten to the power of `n`.
spec fn ten_to(n: nat) -> nat
    decreases n,
{
    if n == 0 {
        1
    } else {
        10 * ten_to((n - 1) as nat)
    }
}

/// Number of digits below a power of ten.
proof fn lemma_digit_count(n: nat, power: nat)
    requires
        n < ten_to(power),
        power > 0,
    ensures
        digit_count(n) <= power,
    decreases power,
{
    if n >= 10 {
        if power == 1 {
            assert(ten_to(1) == 10 * ten_to(0));
        }
        lemma_digit_count(n / 10, (power - 1) as nat);
    }
}

/// The decimal digits of a 64-bit number take at most twenty bytes.
pub proof fn lemma_decimal_size(n: nat)
    requires
        n <= u64::MAX,
    ensures
        decimal(n).len() == digit_count(n),
        digit_count(n) <= 20,
        quoted_size(decimal(n)) == 2 + digit_count(n),
{
    reveal_with_fuel(ten_to, 21);
    assert(ten_to(20) == 100_000_000_000_000_000_000);
    lemma_digit_count(n, 20);
    lemma_decimal_len(n);
    lemma_decimal(n);
    lemma_plain_size(decimal(n));
}

/// A decimal text has as many digits as its number.
proof fn lemma_decimal_len(n: nat)
    ensures
        decimal(n).len() == digit_count(n),
    decreases n,
{
    if n >= 10 {
        lemma_decimal_len(n / 10);
    }
}

/// A longer beginning of a text is no smaller in a JSON string.
pub proof fn lemma_escaped_size_take(text: Seq<char>, n: int, m: int)
    requires
        0 <= n <= m <= text.len(),
    ensures
        escaped_text_size(text.take(n)) <= escaped_text_size(text.take(m)),
    decreases m - n,
{
    if n < m {
        lemma_escaped_size_take(text, n, m - 1);
        assert(text.take(m).drop_last() =~= text.take(m - 1));
    }
}

/// The last field with a name decides what the object holds under it.
proof fn lemma_fields_last(fields: Seq<(String, Json)>, index: int)
    requires
        0 <= index < fields.len(),
        forall|later: int| index < later < fields.len() ==> fields[later].0@ != fields[index].0@,
    ensures
        fields_view(fields).contains_key(fields[index].0@),
        fields_view(fields)[fields[index].0@] == json_view(fields[index].1),
    decreases fields.len(),
{
    if index < fields.len() - 1 {
        lemma_fields_last(fields.drop_last(), index);
    }
}

/// An object holds nothing under a name that no field has.
proof fn lemma_fields_none(fields: Seq<(String, Json)>, name: Seq<char>)
    requires
        forall|i: int| 0 <= i < fields.len() ==> fields[i].0@ != name,
    ensures
        !fields_view(fields).contains_key(name),
    decreases fields.len(),
{
    if fields.len() > 0 {
        lemma_fields_none(fields.drop_last(), name);
    }
}

/// Replacing the last field with a name sets that name alone.
proof fn lemma_fields_update(fields: Seq<(String, Json)>, index: int, field: (String, Json))
    requires
        0 <= index < fields.len(),
        field.0@ == fields[index].0@,
        forall|later: int| index < later < fields.len() ==> fields[later].0@ != fields[index].0@,
    ensures
        fields_view(fields.update(index, field)) == fields_view(fields).insert(
            field.0@,
            json_view(field.1),
        ),
    decreases fields.len(),
{
    let updated = fields.update(index, field);
    if index < fields.len() - 1 {
        lemma_fields_update(fields.drop_last(), index, field);
        assert(updated.drop_last() =~= fields.drop_last().update(index, field));
        assert(updated.last() == fields.last());
        assert(fields_view(updated) =~= fields_view(fields).insert(field.0@, json_view(field.1)));
    } else {
        assert(updated.drop_last() =~= fields.drop_last());
        assert(fields_view(updated) =~= fields_view(fields).insert(field.0@, json_view(field.1)));
    }
}

/// One more field sets its name.
proof fn lemma_fields_push(fields: Seq<(String, Json)>, field: (String, Json))
    ensures
        fields_view(fields.push(field)) == fields_view(fields).insert(field.0@, json_view(field.1)),
{
    assert(fields.push(field).drop_last() =~= fields);
}

/// One more item is held behind the others.
proof fn lemma_items_push(items: Seq<Json>, item: Json)
    ensures
        items_view(items.push(item)) == items_view(items).push(json_view(item)),
{
    assert(items.push(item).drop_last() =~= items);
}

/// A row of values holds what each of them holds.
pub proof fn lemma_items_view(items: Seq<Json>)
    ensures
        items_view(items).len() == items.len(),
        forall|i: int| 0 <= i < items.len() ==> #[trigger] items_view(items)[i] == json_view(items[i]),
    decreases items.len(),
{
    if items.len() > 0 {
        lemma_items_view(items.drop_last());
    }
}

/// An object has finitely many fields.
pub proof fn lemma_fields_finite(fields: Seq<(String, Json)>)
    ensures
        fields_view(fields).dom().finite(),
    decreases fields.len(),
{
    if fields.len() > 0 {
        lemma_fields_finite(fields.drop_last());
    }
}

/// An object has finitely many fields.
pub proof fn lemma_object_finite(value: &Json)
    ensures
        fields_in(value@).dom().finite(),
{
    match value {
        Json::Object(fields) => {
            lemma_fields_finite(fields@);
        },
        _ => {},
    }
}

/// The last field with the given name.
fn find_field(fields: &Vec<(String, Json)>, name: &str) -> (found: Option<usize>)
    ensures
        match found {
            Some(index) => {
                &&& index < fields@.len()
                &&& fields@[index as int].0@ == name@
                &&& forall|later: int|
                    index < later < fields@.len() ==> fields@[later].0@ != fields@[index as int].0@
            },
            None => forall|i: int| 0 <= i < fields@.len() ==> fields@[i].0@ != name@,
        },
{
    let mut index: usize = fields.len();
    while index > 0
        invariant
            index <= fields@.len(),
            forall|later: int| index <= later < fields@.len() ==> fields@[later].0@ != name@,
        decreases index,
    {
        index = index - 1;
        if same_text(fields[index].0.as_str(), name) {
            return Some(index);
        }
    }
    None
}

/// A field from `from` on has the name.
spec fn named_from(fields: Seq<(String, Json)>, from: int, name: Seq<char>) -> bool {
    exists|i: int| from <= i < fields.len() && (#[trigger] fields[i]).0@ == name
}

/// Whether a field from `from` on has the name.
fn comes_again(fields: &Vec<(String, Json)>, from: usize, name: &str) -> (again: bool)
    requires
        from <= fields@.len(),
    ensures
        again == named_from(fields@, from as int, name@),
{
    let mut index: usize = from;
    while index < fields.len()
        invariant
            from <= index <= fields@.len(),
            forall|i: int| from <= i < index ==> (#[trigger] fields@[i]).0@ != name@,
        decreases fields@.len() - index,
    {
        if same_text(fields[index].0.as_str(), name) {
            return true;
        }
        index = index + 1;
    }
    false
}

/// `held` holds the first `count` fields, without those whose names come again behind them.
spec fn holds_first(held: Map<Seq<char>, JsonView>, fields: Seq<(String, Json)>, count: int) -> bool {
    forall|key: Seq<char>|
        #![trigger held.contains_key(key)]
        {
            &&& held.contains_key(key) <==> fields_view(fields.take(count)).contains_key(key) && !named_from(
                fields,
                count,
                key,
            )
            &&& held.contains_key(key) ==> held[key] == fields_view(fields.take(count))[key]
        }
}

/// One more field is held, unless its name comes again.
proof fn lemma_holds_one_more(held: Map<Seq<char>, JsonView>, fields: Seq<(String, Json)>, count: int)
    requires
        0 <= count < fields.len(),
        holds_first(held, fields, count),
    ensures
        holds_first(
            if named_from(fields, count + 1, fields[count].0@) {
                held
            } else {
                held.insert(fields[count].0@, json_view(fields[count].1))
            },
            fields,
            count + 1,
        ),
        !held.contains_key(fields[count].0@),
{
    let name = fields[count].0@;
    let after = if named_from(fields, count + 1, name) {
        held
    } else {
        held.insert(name, json_view(fields[count].1))
    };
    lemma_fields_push(fields.take(count), fields[count]);
    assert(fields.take(count).push(fields[count]) =~= fields.take(count + 1));
    assert(named_from(fields, count, name));
    assert forall|key: Seq<char>| #![trigger after.contains_key(key)] {
        &&& after.contains_key(key) <==> fields_view(fields.take(count + 1)).contains_key(key) && !named_from(
            fields,
            count + 1,
            key,
        )
        &&& after.contains_key(key) ==> after[key] == fields_view(fields.take(count + 1))[key]
    } by {
        assert(held.contains_key(key) ==> held[key] == fields_view(fields.take(count))[key]);
        if key != name {
            assert(named_from(fields, count, key) <==> named_from(fields, count + 1, key));
        }
    }
}

/// The names of a row are those of its values.
proof fn lemma_entry_names(entries: Seq<(String, serde_json::Value)>)
    ensures
        forall|i: int| 0 <= i < entries.len() ==> entries_hold(entries).contains_key((#[trigger] entries[i]).0@),
    decreases entries.len(),
{
    if entries.len() > 0 {
        lemma_entry_names(entries.drop_last());
        assert forall|i: int| 0 <= i < entries.len() implies entries_hold(entries).contains_key(
            (#[trigger] entries[i]).0@,
        ) by {
            if i < entries.len() - 1 {
                assert(entries.drop_last()[i] == entries[i]);
            }
        }
    }
}

impl Json {
    /// A text value.
    pub fn text(text: &str) -> (value: Json)
        ensures
            value@ == JsonView::Text(text@),
    {
        Json::Text(text.to_owned())
    }

    /// An unsigned integer value.
    pub fn unsigned(number: u64) -> (value: Json)
        ensures
            value@ == unsigned_view(number),
    {
        Json::Number(number_from(number))
    }

    /// The value of a count.
    pub fn count(number: usize) -> (value: Json)
        ensures
            value@ == unsigned_view(number as u64),
    {
        Json::Number(number_from(number as u64))
    }

    /// A text value, null where there is no text.
    pub fn optional_text(text: &Option<String>) -> (value: Json)
        ensures
            value@ == text_or_null(crate::text::opt_view(*text)),
    {
        match text {
            Some(text) => Json::text(text.as_str()),
            None => Json::Null,
        }
    }

    /// An object without fields.
    pub fn object() -> (value: Json)
        ensures
            value@ == JsonView::Object(Map::empty()),
    {
        Json::Object(Vec::new())
    }

    /// An array without items.
    pub fn array() -> (value: Json)
        ensures
            value@ == JsonView::Array(Seq::empty()),
    {
        Json::Array(Vec::new())
    }

    /// An optional unsigned integer value, null where there is none.
    pub fn optional_unsigned(number: Option<u64>) -> (value: Json)
        ensures
            value@ == unsigned_or_null(number),
    {
        match number {
            Some(number) => Json::unsigned(number),
            None => Json::Null,
        }
    }

    /// An array of texts.
    pub fn texts(texts: &Vec<String>) -> (value: Json)
        ensures
            value@ == texts_value(crate::text::texts_view(texts@)),
    {
        let mut items: Vec<Json> = Vec::new();
        let mut index: usize = 0;
        while index < texts.len()
            invariant
                index <= texts@.len(),
                items@.len() == index,
                forall|i: int| 0 <= i < index ==> json_view(#[trigger] items@[i]) == JsonView::Text(texts@[i]@),
            decreases texts@.len() - index,
        {
            items.push(Json::text(texts[index].as_str()));
            index = index + 1;
        }
        proof {
            lemma_items_view(items@);
            assert(items_view(items@) =~= crate::text::texts_view(texts@).map_values(
                |text: Seq<char>| JsonView::Text(text),
            ));
        }
        Json::Array(items)
    }

    /// The field `name` of an object.
    pub fn get(&self, name: &str) -> (found: Option<&Json>)
        ensures
            match found {
                Some(value) => field_of(self@, name@) == Some(value@),
                None => field_of(self@, name@) is None,
            },
    {
        match self {
            Json::Object(fields) => match find_field(fields, name) {
                Some(index) => {
                    proof {
                        lemma_fields_last(fields@, index as int);
                    }
                    Some(&fields[index].1)
                },
                None => {
                    proof {
                        lemma_fields_none(fields@, name@);
                    }
                    None
                },
            },
            _ => None,
        }
    }

    /// Whether the value is null.
    pub fn is_null(&self) -> (null: bool)
        ensures
            null == (self@ == JsonView::Null),
    {
        match self {
            Json::Null => true,
            _ => false,
        }
    }

    /// Whether the value is an object.
    pub fn is_object(&self) -> (object: bool)
        ensures
            object == (self@ is Object),
    {
        match self {
            Json::Object(_) => true,
            _ => false,
        }
    }

    /// The text that the value is.
    pub fn as_str(&self) -> (text: Option<&str>)
        ensures
            match text {
                Some(text) => text_in(self@) == Some(text@),
                None => text_in(self@) is None,
            },
    {
        match self {
            Json::Text(text) => Some(text.as_str()),
            _ => None,
        }
    }

    /// The boolean that the value is.
    pub fn as_bool(&self) -> (flag: Option<bool>)
        ensures
            flag == bool_in(self@),
    {
        match self {
            Json::Bool(flag) => Some(*flag),
            _ => None,
        }
    }

    /// The unsigned integer that the value is.
    pub fn as_u64(&self) -> (number: Option<u64>)
        ensures
            number == unsigned_in(self@),
    {
        match self {
            Json::Number(number) => number_as_u64(number),
            _ => None,
        }
    }

    /// The signed integer that the value is.
    pub fn as_i64(&self) -> (number: Option<i64>)
        ensures
            number == signed_in(self@),
    {
        match self {
            Json::Number(number) => number_as_i64(number),
            _ => None,
        }
    }

    /// The items of an array.
    pub fn as_array(&self) -> (items: Option<&Vec<Json>>)
        ensures
            match items {
                Some(items) => self@ == JsonView::Array(items_view(items@)),
                None => !(self@ is Array),
            },
    {
        match self {
            Json::Array(items) => Some(items),
            _ => None,
        }
    }

    /// The text that the field `name` is.
    pub fn text_at(&self, name: &str) -> (text: Option<&str>)
        ensures
            match text {
                Some(text) => text_field(self@, name@) == Some(text@),
                None => text_field(self@, name@) is None,
            },
    {
        match self.get(name) {
            Some(value) => value.as_str(),
            None => None,
        }
    }

    /// The boolean that the field `name` is, false where it is none.
    pub fn flag_at(&self, name: &str) -> (flag: bool)
        ensures
            flag == flag_field(self@, name@),
    {
        match self.get(name) {
            Some(value) => match value.as_bool() {
                Some(flag) => flag,
                None => false,
            },
            None => false,
        }
    }

    /// Sets the field `name` of an object.
    pub fn set(&mut self, name: &str, value: Json)
        requires
            old(self)@ is Object,
        ensures
            final(self)@ == with_field(old(self)@, name@, value@),
    {
        if let Json::Object(fields) = self {
            match find_field(fields, name) {
                Some(index) => {
                    let field = (name.to_owned(), value);
                    proof {
                        lemma_fields_update(fields@, index as int, field);
                    }
                    fields[index] = field;
                },
                None => {
                    let field = (name.to_owned(), value);
                    proof {
                        lemma_fields_push(fields@, field);
                    }
                    fields.push(field);
                },
            }
        }
    }

    /// Appends `item` to the array in the field `name`; says whether that field is an array.
    pub fn push_item(&mut self, name: &str, item: Json) -> (pushed: bool)
        ensures
            pushed == has_array(old(self)@, name@),
            pushed ==> final(self)@ == with_field(
                old(self)@,
                name@,
                JsonView::Array(items_in(old(self)@, name@).push(item@)),
            ),
            !pushed ==> final(self)@ == old(self)@,
    {
        if let Json::Object(fields) = self {
            match find_field(fields, name) {
                Some(index) => {
                    proof {
                        lemma_fields_last(fields@, index as int);
                    }
                    let ghost before = fields@;
                    if fields[index].1.as_array().is_none() {
                        return false;
                    }
                    if let Json::Array(items) = &mut fields[index].1 {
                        proof {
                            lemma_items_push(items@, item);
                        }
                        items.push(item);
                    }
                    proof {
                        lemma_fields_update(before, index as int, fields@[index as int]);
                        assert(before.update(index as int, fields@[index as int]) =~= fields@);
                    }
                    true
                },
                None => {
                    proof {
                        lemma_fields_none(fields@, name@);
                    }
                    false
                },
            }
        } else {
            false
        }
    }

    /// Takes the last item off the array in the field `name`; says whether there was one.
    pub fn pop_item(&mut self, name: &str) -> (popped: bool)
        ensures
            popped == (items_in(old(self)@, name@).len() > 0),
            popped ==> final(self)@ == with_field(
                old(self)@,
                name@,
                JsonView::Array(items_in(old(self)@, name@).drop_last()),
            ),
            !popped ==> final(self)@ == old(self)@,
    {
        if let Json::Object(fields) = self {
            match find_field(fields, name) {
                Some(index) => {
                    proof {
                        lemma_fields_last(fields@, index as int);
                    }
                    let ghost before = fields@;
                    let count: usize = match fields[index].1.as_array() {
                        Some(items) => {
                            proof {
                                lemma_items_view(items@);
                            }
                            items.len()
                        },
                        None => 0,
                    };
                    if count == 0 {
                        return false;
                    }
                    if let Json::Array(items) = &mut fields[index].1 {
                        proof {
                            lemma_items_view(items@);
                        }
                        let ghost all = items@;
                        items.pop();
                        assert(items@ =~= all.drop_last());
                        assert(items_view(all).drop_last() =~= items_view(all.drop_last()));
                    }
                    proof {
                        lemma_fields_update(before, index as int, fields@[index as int]);
                        assert(before.update(index as int, fields@[index as int]) =~= fields@);
                    }
                    true
                },
                None => {
                    proof {
                        lemma_fields_none(fields@, name@);
                    }
                    false
                },
            }
        } else {
            false
        }
    }

    /// The same value again.
    pub fn duplicate(&self) -> (copy: Json)
        ensures
            copy@ == self@,
        decreases self,
    {
        match self {
            Json::Null => Json::Null,
            Json::Bool(flag) => Json::Bool(*flag),
            Json::Number(number) => Json::Number(number_clone(number)),
            Json::Text(text) => Json::Text(text.clone()),
            Json::Array(items) => {
                let mut copies: Vec<Json> = Vec::new();
                let mut index: usize = 0;
                while index < items.len()
                    invariant
                        index <= items@.len(),
                        *self == Json::Array(*items),
                        items_view(copies@) == items_view(items@.take(index as int)),
                    decreases items@.len() - index,
                {
                    assert(decreases_to!(*self => self->Array_0));
                    assert(decreases_to!(*items => items@));
                    assert(decreases_to!(items@ => items@[index as int]));
                    let copy = items[index].duplicate();
                    proof {
                        lemma_items_push(copies@, copy);
                        lemma_items_push(items@.take(index as int), items@[index as int]);
                        assert(items@.take(index as int).push(items@[index as int]) =~= items@.take(index + 1));
                    }
                    copies.push(copy);
                    index = index + 1;
                }
                assert(items@.take(index as int) =~= items@);
                Json::Array(copies)
            },
            Json::Object(fields) => {
                let mut copies: Vec<(String, Json)> = Vec::new();
                let mut index: usize = 0;
                while index < fields.len()
                    invariant
                        index <= fields@.len(),
                        *self == Json::Object(*fields),
                        fields_view(copies@) == fields_view(fields@.take(index as int)),
                    decreases fields@.len() - index,
                {
                    assert(decreases_to!(*self => self->Object_0));
                    assert(decreases_to!(*fields => fields@));
                    assert(decreases_to!(fields@ => fields@[index as int]));
                    assert(decreases_to!(fields@[index as int] => fields@[index as int].1));
                    let copy = (fields[index].0.clone(), fields[index].1.duplicate());
                    proof {
                        lemma_fields_push(copies@, copy);
                        lemma_fields_push(fields@.take(index as int), fields@[index as int]);
                        assert(fields@.take(index as int).push(fields@[index as int]) =~= fields@.take(index + 1));
                    }
                    copies.push(copy);
                    index = index + 1;
                }
                assert(fields@.take(index as int) =~= fields@);
                Json::Object(copies)
            },
        }
    }

    /// The object without the field `name`; any other value as it is.
    pub fn without(&self, name: &str) -> (rest: Json)
        ensures
            rest@ == (match self@ {
                JsonView::Object(fields) => JsonView::Object(fields.remove(name@)),
                other => other,
            }),
    {
        match self {
            Json::Object(fields) => {
                let mut kept: Vec<(String, Json)> = Vec::new();
                let mut index: usize = 0;
                assert(fields_view(kept@) =~= fields_view(fields@.take(0)).remove(name@));
                while index < fields.len()
                    invariant
                        index <= fields@.len(),
                        fields_view(kept@) == fields_view(fields@.take(index as int)).remove(name@),
                    decreases fields@.len() - index,
                {
                    proof {
                        lemma_fields_push(fields@.take(index as int), fields@[index as int]);
                        assert(fields@.take(index as int).push(fields@[index as int]) =~= fields@.take(index + 1));
                    }
                    if !same_text(fields[index].0.as_str(), name) {
                        let copy = (fields[index].0.clone(), fields[index].1.duplicate());
                        proof {
                            lemma_fields_push(kept@, copy);
                        }
                        kept.push(copy);
                    }
                    assert(fields_view(kept@) =~= fields_view(fields@.take(index + 1)).remove(name@));
                    index = index + 1;
                }
                assert(fields@.take(index as int) =~= fields@);
                Json::Object(kept)
            },
            _ => self.duplicate(),
        }
    }

    /// The value that `serde_json` has.
    pub fn from_value(value: &serde_json::Value) -> (json: Json)
        ensures
            json@ == value_holds(*value),
        decreases value_holds(*value),
    {
        match value_parts(value) {
            ValueParts::Null => Json::Null,
            ValueParts::Bool(flag) => Json::Bool(flag),
            ValueParts::Number(number) => Json::Number(number_clone(number)),
            ValueParts::Text(text) => Json::Text(text.clone()),
            ValueParts::Array(values) => {
                let mut items: Vec<Json> = Vec::new();
                let mut index: usize = 0;
                while index < values.len()
                    invariant
                        index <= values@.len(),
                        value_holds(*value) == JsonView::Array(values_hold(values@)),
                        items_view(items@) == values_hold(values@).take(index as int),
                    decreases values@.len() - index,
                {
                    let ghost held = value_holds(*value);
                    assert(decreases_to!(held => held->Array_0));
                    assert(decreases_to!(held->Array_0 => held->Array_0[index as int]));
                    let item = Json::from_value(&values[index]);
                    proof {
                        lemma_items_push(items@, item);
                        assert(values_hold(values@).take(index as int).push(item@) =~= values_hold(values@).take(
                            index + 1,
                        ));
                    }
                    items.push(item);
                    index = index + 1;
                }
                assert(values_hold(values@).take(index as int) =~= values_hold(values@));
                Json::Array(items)
            },
            ValueParts::Object(pairs) => {
                let mut fields: Vec<(String, Json)> = Vec::new();
                let mut index: usize = 0;
                while index < pairs.len()
                    invariant
                        index <= pairs@.len(),
                        value_holds(*value) == JsonView::Object(pairs_hold(pairs@)),
                        forall|i: int, j: int|
                            0 <= i < j < pairs@.len() ==> (#[trigger] pairs@[i]).0@ != (#[trigger] pairs@[j]).0@,
                        fields_view(fields@) == pairs_hold(pairs@.take(index as int)),
                    decreases pairs@.len() - index,
                {
                    let ghost held = value_holds(*value);
                    proof {
                        lemma_pairs_last(pairs@, index as int);
                    }
                    assert(decreases_to!(held => held->Object_0));
                    assert(decreases_to!(held->Object_0 => held->Object_0[pairs@[index as int].0@]));
                    let field = (pairs[index].0.clone(), Json::from_value(pairs[index].1));
                    proof {
                        lemma_fields_push(fields@, field);
                        assert(pairs@.take(index + 1).drop_last() =~= pairs@.take(index as int));
                    }
                    fields.push(field);
                    index = index + 1;
                }
                assert(pairs@.take(index as int) =~= pairs@);
                Json::Object(fields)
            },
        }
    }

    /// The value as `serde_json` has it.
    pub fn to_value(&self) -> (value: serde_json::Value)
        ensures
            value_holds(value) == self@,
        decreases self,
    {
        match self {
            Json::Null => value_null(),
            Json::Bool(flag) => value_bool(*flag),
            Json::Number(number) => value_number(number_clone(number)),
            Json::Text(text) => value_string(text.clone()),
            Json::Array(items) => {
                let mut values: Vec<serde_json::Value> = Vec::new();
                let mut index: usize = 0;
                while index < items.len()
                    invariant
                        index <= items@.len(),
                        *self == Json::Array(*items),
                        values_hold(values@) == items_view(items@.take(index as int)),
                    decreases items@.len() - index,
                {
                    assert(decreases_to!(*self => self->Array_0));
                    assert(decreases_to!(*items => items@));
                    assert(decreases_to!(items@ => items@[index as int]));
                    let value = items[index].to_value();
                    proof {
                        lemma_items_push(items@.take(index as int), items@[index as int]);
                        assert(items@.take(index as int).push(items@[index as int]) =~= items@.take(index + 1));
                        assert(values_hold(values@.push(value)) =~= values_hold(values@).push(value_holds(value)));
                    }
                    values.push(value);
                    index = index + 1;
                }
                assert(items@.take(index as int) =~= items@);
                value_array(values)
            },
            Json::Object(fields) => {
                let mut entries: Vec<(String, serde_json::Value)> = Vec::new();
                let mut index: usize = 0;
                while index < fields.len()
                    invariant
                        index <= fields@.len(),
                        *self == Json::Object(*fields),
                        forall|i: int, j: int|
                            0 <= i < j < entries@.len() ==> (#[trigger] entries@[i]).0@ != (
                            #[trigger] entries@[j]).0@,
                        holds_first(entries_hold(entries@), fields@, index as int),
                    decreases fields@.len() - index,
                {
                    assert(decreases_to!(*self => self->Object_0));
                    assert(decreases_to!(*fields => fields@));
                    assert(decreases_to!(fields@ => fields@[index as int]));
                    assert(decreases_to!(fields@[index as int] => fields@[index as int].1));
                    proof {
                        lemma_entry_names(entries@);
                        lemma_holds_one_more(entries_hold(entries@), fields@, index as int);
                    }
                    if !comes_again(fields, index + 1, fields[index].0.as_str()) {
                        let entry = (fields[index].0.clone(), fields[index].1.to_value());
                        assert(entries@.push(entry).drop_last() =~= entries@);
                        entries.push(entry);
                    }
                    index = index + 1;
                }
                proof {
                    assert(fields@.take(index as int) =~= fields@);
                    assert(entries_hold(entries@) =~= fields_view(fields@)) by {
                        assert forall|key: Seq<char>| entries_hold(entries@).contains_key(key)
                            == #[trigger] fields_view(fields@).contains_key(key) by {
                            assert(!named_from(fields@, index as int, key));
                        }
                    }
                }
                value_object(entries)
            },
        }
    }

    /// The compact text of the value.
    pub fn to_text(&self) -> (text: String)
        ensures
            text@ == json_text(self@),
            utf8_len(text@) == json_size(self@),
            plain_within(self@, nesting_limit()) ==> reads_as(encode_utf8(text@), self@),
    {
        value_text(&self.to_value())
    }
}

/// Size of the compact text of a value in UTF-8 bytes.
pub fn serialized_len(value: &Json) -> (length: usize)
    ensures
        length == json_size(value@),
{
    crate::text::byte_len(value.to_text().as_str())
}

/// Reads one JSON text. The value is left as `serde_json` has it, for a decoder to take.
pub fn parse_record(bytes: &[u8]) -> (outcome: Result<serde_json::Value, String>)
    ensures
        parse_outcome(outcome) == json_parsed(bytes@),
{
    value_parse(bytes)
}

/// Whether the bytes are a JSON text that reads as `expected`.
pub fn reads_back(bytes: &[u8], expected: &Json) -> (same: bool)
    requires
        plain_within(expected@, nesting_limit()),
    ensures
        same == reads_as(bytes@, expected@),
{
    match value_parse(bytes) {
        Ok(value) => value_equal(&value, &expected.to_value()),
        Err(_) => false,
    }
}

} // verus!
