//! Reading and writing the JSON records of the kernel's wire format.
//!
//! What a string or an integer is, where a value ends, and what is wrong with a text
//! that is no JSON, `serde_json` says. Which fields a record needs, in which order
//! its members are looked at, and what is said of one that is missing or repeated, is
//! decided here. A record is an object, whose members are taken by name, or an array,
//! whose elements are taken by position. The first thing that is wrong with a body is
//! reported with its line and column.

use crate::text;
use crate::wire;
use crate::wire::{Kind, Shape};
use serde::de::{Deserialize, IgnoredAny};
use std::collections::BTreeMap;
use vstd::prelude::*;
use vstd::slice::*;
use vstd::string::*;

verus! {

/// What `serde_json` says is wrong with a text that is to be one JSON value and no
/// more, if anything is.
pub uninterp spec fn json_flaw(json: Seq<u8>) -> Option<Seq<char>>;

/// What `serde_json` says is wrong with a text that is to start with a JSON object,
/// if anything is.
pub uninterp spec fn json_object_flaw(json: Seq<u8>) -> Option<Seq<char>>;

/// What `serde_json` says is wrong with a text that is to start with a JSON array,
/// if anything is.
pub uninterp spec fn json_array_flaw(json: Seq<u8>) -> Option<Seq<char>>;

/// How many bytes of a text `serde_json` takes for the JSON value that it starts
/// with; where there is none, for the white space alone.
pub uninterp spec fn json_value_end(json: Seq<u8>) -> usize;

/// What `serde_json` finds when it reads a string at the start of a text: its
/// characters, or what it says is wrong.
pub uninterp spec fn json_string(json: Seq<u8>) -> Result<Seq<char>, Seq<char>>;

/// What `serde_json` finds when it reads a 64-bit signed integer at the start of a
/// text: the number, or what it says is wrong.
pub uninterp spec fn json_integer(json: Seq<u8>) -> Result<i64, Seq<char>>;

/// A message that may be missing, as a character sequence.
pub open spec fn message_view(message: Option<String>) -> Option<Seq<char>> {
    match message {
        Some(text) => Some(text@),
        None => None,
    }
}

/// `serde_json::from_slice` of a value that is skipped.
/// Claimed: whether there is an error, and its message, depend on the bytes alone.
#[verifier::external_body]
fn flaw(json: &[u8]) -> (message: Option<String>)
    ensures
        message_view(message) == json_flaw(json@),
{
    let value: Result<IgnoredAny, serde_json::Error> = serde_json::from_slice(json);
    value.err().map(|error| error.to_string())
}

/// `Deserialize` of a map whose values are skipped, by `serde_json::Deserializer`.
/// Claimed: whether there is an error, and its message, depend on the bytes alone.
#[verifier::external_body]
fn object_flaw(json: &[u8]) -> (message: Option<String>)
    ensures
        message_view(message) == json_object_flaw(json@),
{
    let mut deserializer = serde_json::Deserializer::from_slice(json);
    let object = BTreeMap::<String, IgnoredAny>::deserialize(&mut deserializer);
    object.err().map(|error| error.to_string())
}

/// `Deserialize` of a list whose elements are skipped, by `serde_json::Deserializer`.
/// Claimed: whether there is an error, and its message, depend on the bytes alone.
#[verifier::external_body]
fn array_flaw(json: &[u8]) -> (message: Option<String>)
    ensures
        message_view(message) == json_array_flaw(json@),
{
    let mut deserializer = serde_json::Deserializer::from_slice(json);
    let array = Vec::<IgnoredAny>::deserialize(&mut deserializer);
    array.err().map(|error| error.to_string())
}

/// `serde_json::StreamDeserializer::byte_offset`, after the first value, which is
/// skipped. Claimed: it depends on the bytes alone, and does not come past their end.
#[verifier::external_body]
fn value_end(json: &[u8]) -> (end: usize)
    ensures
        end == json_value_end(json@),
        end <= json@.len(),
{
    let mut values = serde_json::Deserializer::from_slice(json).into_iter::<IgnoredAny>();
    let _ = values.next();
    values.byte_offset()
}

/// `Deserialize` of a `String`, by `serde_json::Deserializer`.
/// Claimed: the outcome, error message included, depends on the bytes alone.
#[verifier::external_body]
fn read_string(json: &[u8]) -> (string: Result<String, String>)
    ensures
        match string {
            Ok(value) => json_string(json@) == Ok::<_, Seq<char>>(value@),
            Err(message) => json_string(json@) == Err::<Seq<char>, _>(message@),
        },
{
    let mut deserializer = serde_json::Deserializer::from_slice(json);
    String::deserialize(&mut deserializer).map_err(|error| error.to_string())
}

/// `Deserialize` of an `i64`, by `serde_json::Deserializer`.
/// Claimed: the outcome, error message included, depends on the bytes alone.
#[verifier::external_body]
fn read_integer(json: &[u8]) -> (integer: Result<i64, String>)
    ensures
        match integer {
            Ok(value) => json_integer(json@) == Ok::<_, Seq<char>>(value),
            Err(message) => json_integer(json@) == Err::<i64, _>(message@),
        },
{
    let mut deserializer = serde_json::Deserializer::from_slice(json);
    i64::deserialize(&mut deserializer).map_err(|error| error.to_string())
}

/// Whether a byte is white space between JSON's marks and values.
pub open spec fn is_space(byte: u8) -> bool {
    byte == 0x20 || byte == 0x09 || byte == 0x0a || byte == 0x0d
}

/// Where the white space ends that `json` has from `at` on.
pub open spec fn space_end(json: Seq<u8>, at: int) -> int
    decreases json.len() - at,
{
    if 0 <= at < json.len() && is_space(json[at]) {
        space_end(json, at + 1)
    } else {
        at
    }
}

/// Finds where the white space ends that `json` has from `at` on.
fn skip_space(json: &[u8], at: usize) -> (end: usize)
    requires
        at <= json@.len(),
    ensures
        at <= end <= json@.len(),
        end == space_end(json@, at as int),
{
    let mut i: usize = at;
    while i < json.len() && (json[i] == 0x20 || json[i] == 0x09 || json[i] == 0x0a || json[i]
        == 0x0d)
        invariant
            at <= i <= json@.len(),
            space_end(json@, at as int) == space_end(json@, i as int),
        decreases json.len() - i,
    {
        i += 1;
    }
    i
}

/// White space ends where it starts, or later, and not after the text.
proof fn lemma_space_end(json: Seq<u8>, at: int)
    requires
        0 <= at <= json.len(),
    ensures
        at <= space_end(json, at) <= json.len(),
    decreases json.len() - at,
{
    if at < json.len() && is_space(json[at]) {
        lemma_space_end(json, at + 1);
    }
}

/// `json` with spaces in place of all that stands before `at`, but for the line
/// feeds: what is found in it from `at` on has its line and column in `json`.
pub open spec fn blanked(json: Seq<u8>, at: int) -> Seq<u8> {
    Seq::new(
        json.len(),
        |i: int|
            if i < at && json[i] != 0x0a {
                0x20u8
            } else {
                json[i]
            },
    )
}

/// Puts spaces in place of all that stands before `at`, but for the line feeds.
fn blank(json: &[u8], at: usize) -> (text: Vec<u8>)
    ensures
        text@ == blanked(json@, at as int),
{
    let mut text: Vec<u8> = Vec::new();
    let mut i: usize = 0;
    while i < json.len()
        invariant
            i <= json@.len(),
            text@ =~= blanked(json@, at as int).take(i as int),
        decreases json.len() - i,
    {
        text.push(
            if i < at && json[i] != 0x0a {
                0x20
            } else {
                json[i]
            },
        );
        i += 1;
    }
    assert(text@ =~= blanked(json@, at as int));
    text
}

/// How many line feeds stand before `at`.
pub open spec fn lines_before(json: Seq<u8>, at: int) -> int
    decreases at,
{
    if at <= 0 {
        0
    } else {
        lines_before(json, at - 1) + (if json[at - 1] == 0x0a {
            1int
        } else {
            0
        })
    }
}

/// How many bytes stand between the last line feed before `at`, or the start, and
/// `at`.
pub open spec fn column_of(json: Seq<u8>, at: int) -> int
    decreases at,
{
    if at <= 0 || json[at - 1] == 0x0a {
        0
    } else {
        column_of(json, at - 1) + 1
    }
}

/// How a message tells the place `at` in a text.
pub open spec fn place(json: Seq<u8>, at: int) -> Seq<char> {
    " at line "@ + text::decimal(lines_before(json, at) + 1) + " column "@ + text::decimal(
        column_of(json, at),
    )
}

/// The place just after the byte at `at`, or the end of the text.
pub open spec fn place_past(json: Seq<u8>, at: int) -> Seq<char> {
    place(
        json,
        if at < json.len() {
            at + 1
        } else {
            json.len() as int
        },
    )
}

/// Adds the place `at` to a message.
fn with_place(message: String, json: &[u8], at: usize) -> (placed: String)
    requires
        at <= json@.len(),
    ensures
        placed@ == message@ + place(json@, at as int),
{
    let mut lines: usize = 0;
    let mut column: usize = 0;
    let mut i: usize = 0;
    while i < at
        invariant
            i <= at <= json@.len(),
            0 <= lines <= i,
            0 <= column <= i,
            lines == lines_before(json@, i as int),
            column == column_of(json@, i as int),
        decreases at - i,
    {
        if json[i] == 0x0a {
            lines += 1;
            column = 0;
        } else {
            column += 1;
        }
        i += 1;
    }
    let placed = message.concat(" at line ").concat(
        text::unsigned_text(lines as u128 + 1).as_str(),
    ).concat(" column ").concat(text::unsigned_text(column as u128).as_str());
    assert(placed@ =~= message@ + place(json@, at as int));
    placed
}

/// Adds the place just after `at`, or the end of the text, to a message.
fn with_place_past(message: String, json: &[u8], at: usize) -> (placed: String)
    requires
        at <= json@.len(),
    ensures
        placed@ == message@ + place_past(json@, at as int),
{
    if at < json.len() {
        with_place(message, json, at + 1)
    } else {
        with_place(message, json, at)
    }
}

/// `s` with `b` in place of the last `a` in it.
pub open spec fn last_replaced(s: Seq<char>, a: Seq<char>, b: Seq<char>) -> Seq<char>
    decreases s.len(),
{
    if s.len() < a.len() || s.len() == 0 {
        s
    } else if s.skip(s.len() - a.len()) == a {
        s.take(s.len() - a.len()) + b
    } else {
        last_replaced(s.drop_last(), a, b).push(s.last())
    }
}

/// Puts `b` in place of the last `a` in a text.
fn replace_last(s: &str, a: &str, b: &str) -> (replaced: String)
    ensures
        replaced@ == last_replaced(s@, a@, b@),
{
    let len: usize = s.unicode_len();
    let width: usize = a.unicode_len();
    let mut n: usize = len;
    assert(s@.take(len as int) =~= s@);
    assert(last_replaced(s@, a@, b@) + s@.skip(len as int) =~= last_replaced(s@, a@, b@));
    while n >= width && n > 0
        invariant
            n <= len == s@.len(),
            width == a@.len(),
            last_replaced(s@, a@, b@) == last_replaced(s@.take(n as int), a@, b@) + s@.skip(
                n as int,
            ),
        decreases n,
    {
        let ghost head = s@.take(n as int);
        assert(head.skip(n - width) =~= s@.subrange(n - width, n as int));
        if text::same_text(s.substring_char(n - width, n), a) {
            assert(head.take(n - width) =~= s@.subrange(0, n - width));
            let replaced = s.substring_char(0, n - width).to_owned().concat(b).concat(
                s.substring_char(n, len),
            );
            assert(s@.subrange(n as int, len as int) =~= s@.skip(n as int));
            return replaced;
        }
        proof {
            assert(head.drop_last() =~= s@.take(n - 1));
            let shorter = last_replaced(s@.take(n - 1), a@, b@);
            assert(shorter.push(head.last()) + s@.skip(n as int) =~= shorter + s@.skip(n - 1));
        }
        n -= 1;
    }
    assert(s@.take(n as int) + s@.skip(n as int) =~= s@);
    s.to_owned()
}

/// What is wrong with the object that `json` has at `open`, as far as `serde_json`
/// says anything.
pub open spec fn object_flaw_at(json: Seq<u8>, open: int) -> Seq<char> {
    match json_object_flaw(blanked(json, open)) {
        Some(message) => message,
        None => Seq::empty(),
    }
}

/// What is wrong with the array that `json` has at `open`, as far as `serde_json` says
/// anything.
pub open spec fn array_flaw_at(json: Seq<u8>, open: int) -> Seq<char> {
    match json_array_flaw(blanked(json, open)) {
        Some(message) => message,
        None => Seq::empty(),
    }
}

/// The message of a result that has one.
pub open spec fn message_in<T>(result: Result<T, Seq<char>>) -> Seq<char> {
    match result {
        Ok(_) => Seq::empty(),
        Err(message) => message,
    }
}

/// A text without characters.
fn no_text() -> (text: String)
    ensures
        text@ == Seq::<char>::empty(),
{
    let text = "".to_owned();
    proof {
        reveal_strlit("");
    }
    assert(text@ =~= Seq::<char>::empty());
    text
}

/// Where the value ends that `json` has at `at`, if there is one.
pub open spec fn skipped_end(json: Seq<u8>, at: int) -> Option<int> {
    let end = at + json_value_end(json.skip(at));
    if space_end(json, at) < end <= json.len() {
        Some(end)
    } else {
        None
    }
}

/// Skips the value that `json` has at `at`.
fn skip_value(json: &[u8], at: usize) -> (end: Option<usize>)
    requires
        at <= json@.len(),
    ensures
        match end {
            Some(n) => skipped_end(json@, at as int) == Some(n as int) && at < n <= json@.len(),
            None => skipped_end(json@, at as int) is None,
        },
{
    let rest = slice_subrange(json, at, json.len());
    assert(rest@ =~= json@.skip(at as int));
    let end: usize = at + value_end(rest);
    if skip_space(json, at) < end {
        Some(end)
    } else {
        None
    }
}

/// The string that `json` has at `at`, and where it ends; or what is wrong there.
pub open spec fn text_at(json: Seq<u8>, at: int) -> Result<(Seq<char>, int), Seq<char>> {
    match (json_string(json.skip(at)), skipped_end(json, at)) {
        (Ok(value), Some(end)) => Ok((value, end)),
        _ => Err(message_in(json_string(blanked(json, at)))),
    }
}

/// The integer that `json` has at `at`, and where it ends; or what is wrong there.
pub open spec fn number_at(json: Seq<u8>, at: int) -> Result<(i64, int), Seq<char>> {
    match (json_integer(json.skip(at)), skipped_end(json, at)) {
        (Ok(value), Some(end)) => Ok((value, end)),
        _ => Err(message_in(json_integer(blanked(json, at)))),
    }
}

/// Reads a string at `at`.
fn read_text_at(json: &[u8], at: usize) -> (read: Result<(String, usize), String>)
    requires
        at <= json@.len(),
    ensures
        match read {
            Ok((value, end)) => text_at(json@, at as int) == Ok::<_, Seq<char>>(
                (value@, end as int),
            ) && at < end <= json@.len(),
            Err(message) => text_at(json@, at as int) == Err::<(Seq<char>, int), _>(message@),
        },
{
    let rest = slice_subrange(json, at, json.len());
    assert(rest@ =~= json@.skip(at as int));
    if let Ok(value) = read_string(rest) {
        if let Some(end) = skip_value(json, at) {
            return Ok((value, end));
        }
    }
    match read_string(blank(json, at).as_slice()) {
        Ok(_) => Err(no_text()),
        Err(message) => Err(message),
    }
}

/// Reads an integer at `at`.
fn read_number_at(json: &[u8], at: usize) -> (read: Result<(i64, usize), String>)
    requires
        at <= json@.len(),
    ensures
        match read {
            Ok((value, end)) => number_at(json@, at as int) == Ok::<_, Seq<char>>(
                (value, end as int),
            ) && at < end <= json@.len(),
            Err(message) => number_at(json@, at as int) == Err::<(i64, int), _>(message@),
        },
{
    let rest = slice_subrange(json, at, json.len());
    assert(rest@ =~= json@.skip(at as int));
    if let Ok(value) = read_integer(rest) {
        if let Some(end) = skip_value(json, at) {
            return Ok((value, end));
        }
    }
    match read_integer(blank(json, at).as_slice()) {
        Ok(_) => Err(no_text()),
        Err(message) => Err(message),
    }
}

/// The value of a field.
#[derive(Debug)]
pub enum Value {
    Text(String),
    Number(i64),
    /// Where the records of a list start.
    Places(Vec<usize>),
}

/// Places in a text as numbers.
pub open spec fn places_view(places: Seq<usize>) -> Seq<int> {
    places.map_values(|place: usize| place as int)
}

/// A [`Value`] by its view.
pub enum ValueView {
    Text(Seq<char>),
    Number(i64),
    Places(Seq<int>),
}

impl View for Value {
    type V = ValueView;

    open spec fn view(&self) -> ValueView {
        match self {
            Value::Text(text) => ValueView::Text(text@),
            Value::Number(number) => ValueView::Number(*number),
            Value::Places(places) => ValueView::Places(places_view(places@)),
        }
    }
}

/// The fields that a record has so far, each by its view.
pub open spec fn fields_view(fields: Seq<Option<Value>>) -> Seq<Option<ValueView>> {
    fields.map_values(
        |field: Option<Value>|
            match field {
                Some(value) => Some(value@),
                None => None,
            },
    )
}

/// Which field is called `name`, among those from `from` on.
pub open spec fn field_called(names: Seq<Seq<char>>, name: Seq<char>, from: int) -> Option<int>
    decreases names.len() - from,
{
    if from < 0 || from >= names.len() {
        None
    } else if names[from] == name {
        Some(from)
    } else {
        field_called(names, name, from + 1)
    }
}

/// A field that is called something is one of the fields.
pub proof fn lemma_field_called(names: Seq<Seq<char>>, name: Seq<char>, from: int)
    ensures
        field_called(names, name, from) matches Some(i) ==> 0 <= i < names.len() && names[i] == name,
    decreases names.len() - from,
{
    if 0 <= from < names.len() && names[from] != name {
        lemma_field_called(names, name, from + 1);
    }
}

/// The first field that has no value, from `from` on.
pub open spec fn first_missing(fields: Seq<Option<ValueView>>, from: int) -> Option<int>
    decreases fields.len() - from,
{
    if from < 0 || from >= fields.len() {
        None
    } else if fields[from] is None {
        Some(from)
    } else {
        first_missing(fields, from + 1)
    }
}

/// What is said of a record that ends at `end` without the field `name`.
pub open spec fn missing_field(json: Seq<u8>, name: Seq<char>, end: int) -> Seq<char> {
    "missing field `"@ + name + "`"@ + place(json, end)
}

/// What is said of a record whose member that ends its name at `at` is the second
/// called so. The closing mark of the record, if it comes next, counts as read.
pub open spec fn duplicate_field(json: Seq<u8>, name: Seq<char>, at: int) -> Seq<char> {
    let next = space_end(json, at);
    "duplicate field `"@ + name + "`"@ + place(
        json,
        if next < json.len() && json[next] == 0x7d {
            next + 1
        } else {
            next
        },
    )
}

/// How many elements a record has as an array, in words.
pub open spec fn in_elements(n: int) -> Seq<char> {
    if n == 1 {
        " with 1 element"@
    } else {
        " with "@ + text::decimal(n) + " elements"@
    }
}

/// What is said of a record that is an array and ends at `end` after `n` elements,
/// which are too few.
pub open spec fn too_few_elements(json: Seq<u8>, shape: Shape, n: int, end: int) -> Seq<char> {
    "invalid length "@ + text::decimal(n) + ", expected "@ + shape.title() + in_elements(
        shape.names().len() as int,
    ) + place(json, end)
}

/// Where an array ends whose last element ends at `at`; or what is said of what comes
/// in place of its closing mark.
pub open spec fn array_end(json: Seq<u8>, at: int) -> Result<int, Seq<char>> {
    let next = space_end(json, at);
    if next >= json.len() {
        Err("EOF while parsing a list"@ + place_past(json, next))
    } else if json[next] == 0x5d {
        Ok(next + 1)
    } else if json[next] == 0x2c {
        let further = space_end(json, next + 1);
        if further < json.len() && json[further] == 0x5d {
            Err("trailing comma"@ + place_past(json, further))
        } else {
            Err("trailing characters"@ + place_past(json, further))
        }
    } else {
        Err("trailing characters"@ + place_past(json, next))
    }
}

/// Where the next element of an array starts after `at`: `Ok(None)` where the array
/// ends, and an error where there is neither an element nor an end.
pub open spec fn next_element(json: Seq<u8>, open: int, at: int, first: bool) -> Result<
    Option<int>,
    Seq<char>,
> {
    let flaw = array_flaw_at(json, open);
    let next = space_end(json, at);
    if next >= json.len() {
        Err(flaw)
    } else if json[next] == 0x5d {
        Ok(None)
    } else if first {
        Ok(Some(next))
    } else if json[next] == 0x2c {
        let element = space_end(json, next + 1);
        if element >= json.len() || json[element] == 0x5d {
            Err(flaw)
        } else {
            Ok(Some(element))
        }
    } else {
        Err(flaw)
    }
}

/// The name of the next member of an object after `at`, and where the name ends:
/// `Ok(None)` where the object ends, and an error where there is neither a name nor an
/// end.
pub open spec fn next_name(json: Seq<u8>, open: int, at: int, first: bool) -> Result<
    Option<(Seq<char>, int)>,
    Seq<char>,
> {
    let flaw = object_flaw_at(json, open);
    let next = space_end(json, at);
    if next >= json.len() {
        Err(flaw)
    } else if json[next] == 0x7d {
        Ok(None)
    } else if !first && json[next] != 0x2c {
        Err(flaw)
    } else {
        let name = if first {
            next
        } else {
            space_end(json, next + 1)
        };
        if name >= json.len() || json[name] != 0x22 {
            Err(flaw)
        } else {
            match text_at(json, name) {
                Ok((text, end)) => Ok(Some((text, end))),
                Err(_) => Err(flaw),
            }
        }
    }
}

/// Where the value of a member starts whose name ends at `at`.
pub open spec fn member_value(json: Seq<u8>, open: int, at: int) -> Result<int, Seq<char>> {
    let next = space_end(json, at);
    if next < json.len() && json[next] == 0x3a {
        Ok(next + 1)
    } else {
        Err(object_flaw_at(json, open))
    }
}

/// The value of the given kind that `json` has at `at`, and where it ends; or what is
/// wrong there.
pub open spec fn value_at(json: Seq<u8>, at: int, kind: Kind) -> Result<
    (ValueView, int),
    Seq<char>,
>
    decreases kind.depth(), 1int, 0int,
{
    match kind {
        Kind::Text => match text_at(json, at) {
            Ok((value, end)) => Ok((ValueView::Text(value), end)),
            Err(message) => Err(message),
        },
        Kind::Number => match number_at(json, at) {
            Ok((value, end)) => Ok((ValueView::Number(value), end)),
            Err(message) => Err(message),
        },
        Kind::Records(element) => {
            let open = space_end(json, at);
            if 0 <= open < json.len() && json[open] == 0x5b {
                match elements_from(json, open, open + 1, element, Seq::empty()) {
                    Ok((places, end)) => Ok((ValueView::Places(places), end)),
                    Err(message) => Err(message),
                }
            } else {
                Err(array_flaw_at(json, open))
            }
        },
    }
}

/// Where the records of a list start, after those that start at `places`, and where
/// the list ends; or the first thing that is wrong in it after `at`.
pub open spec fn elements_from(
    json: Seq<u8>,
    open: int,
    at: int,
    element: Shape,
    places: Seq<int>,
) -> Result<(Seq<int>, int), Seq<char>>
    decreases element.depth() + 1, 0int, json.len() - at,
{
    match next_element(json, open, at, places.len() == 0) {
        Err(message) => Err(message),
        Ok(None) => Ok((places, space_end(json, at) + 1)),
        Ok(Some(start)) => match record_at(json, start, element) {
            Err(message) => Err(message),
            Ok((_, end)) => if at <= start < end <= json.len() {
                elements_from(json, open, end, element, places.push(start))
            } else {
                Err(array_flaw_at(json, open))
            },
        },
    }
}

/// The fields of a record that `json` has at `at`, in the order of the record, and
/// where the record ends; or the first thing that is wrong with it.
pub open spec fn record_at(json: Seq<u8>, at: int, shape: Shape) -> Result<
    (Seq<Option<ValueView>>, int),
    Seq<char>,
>
    decreases shape.depth(), 2int, 0int,
{
    let open = space_end(json, at);
    if 0 <= open < json.len() && json[open] == 0x7b {
        match members_from(
            json,
            open,
            open + 1,
            shape,
            true,
            Seq::new(shape.names().len(), |i: int| None),
        ) {
            Err(message) => Err(message),
            Ok((fields, end)) => match first_missing(fields, 0) {
                Some(i) => Err(missing_field(json, shape.names()[i], end)),
                None => Ok((fields, end)),
            },
        }
    } else if 0 <= open < json.len() && json[open] == 0x5b {
        positions_from(json, open, open + 1, shape, Seq::empty())
    } else {
        Err(last_replaced(object_flaw_at(json, open), "a map"@, shape.title()))
    }
}

/// The fields of a record that is an object, where `fields` are those of the members
/// before `at`, and where the object ends; or the first thing that is wrong in it
/// after `at`. A member that is no field of the record is skipped.
pub open spec fn members_from(
    json: Seq<u8>,
    open: int,
    at: int,
    shape: Shape,
    first: bool,
    fields: Seq<Option<ValueView>>,
) -> Result<(Seq<Option<ValueView>>, int), Seq<char>>
    decreases shape.depth(), 1int, json.len() - at,
{
    proof {
        wire::lemma_shape(shape);
        if let Ok(Some((name, end))) = next_name(json, open, at, first) {
            lemma_field_called(shape.names(), name, 0);
        }
    }
    match next_name(json, open, at, first) {
        Err(message) => Err(message),
        Ok(None) => Ok((fields, space_end(json, at) + 1)),
        Ok(Some((name, name_end))) => {
            let field = field_called(shape.names(), name, 0);
            if field matches Some(i) && fields[i] is Some {
                Err(duplicate_field(json, name, name_end))
            } else {
                match member_value(json, open, name_end) {
                    Err(message) => Err(message),
                    Ok(start) => match field {
                        Some(i) => match value_at(json, start, shape.kinds()[i]) {
                            Err(message) => Err(message),
                            Ok((value, end)) => if at < end <= json.len() {
                                members_from(
                                    json,
                                    open,
                                    end,
                                    shape,
                                    false,
                                    fields.update(i, Some(value)),
                                )
                            } else {
                                Err(object_flaw_at(json, open))
                            },
                        },
                        None => match skipped_end(json, start) {
                            Some(end) if at < end <= json.len() => members_from(
                                json,
                                open,
                                end,
                                shape,
                                false,
                                fields,
                            ),
                            _ => Err(object_flaw_at(json, open)),
                        },
                    },
                }
            }
        },
    }
}

/// The fields of a record that is an array, after the first ones, `fields`, and where
/// the array ends; or the first thing that is wrong in it after `at`.
pub open spec fn positions_from(
    json: Seq<u8>,
    open: int,
    at: int,
    shape: Shape,
    fields: Seq<Option<ValueView>>,
) -> Result<(Seq<Option<ValueView>>, int), Seq<char>>
    decreases shape.depth(), 1int, shape.kinds().len() - fields.len(),
{
    proof {
        wire::lemma_shape(shape);
    }
    if fields.len() >= shape.kinds().len() {
        match array_end(json, at) {
            Ok(end) => Ok((fields, end)),
            Err(message) => Err(message),
        }
    } else {
        match next_element(json, open, at, fields.len() == 0) {
            Err(message) => Err(message),
            Ok(None) => Err(
                too_few_elements(json, shape, fields.len() as int, space_end(json, at) + 1),
            ),
            Ok(Some(start)) => match value_at(json, start, shape.kinds()[fields.len() as int]) {
                Err(message) => Err(message),
                Ok((value, end)) => positions_from(
                    json,
                    open,
                    end,
                    shape,
                    fields.push(Some(value)),
                ),
            },
        }
    }
}

/// The fields of a record that is the whole of `json`; or the first thing that is
/// wrong with it.
pub open spec fn record_in(json: Seq<u8>, shape: Shape) -> Result<
    Seq<Option<ValueView>>,
    Seq<char>,
> {
    match record_at(json, 0, shape) {
        Err(message) => Err(message),
        Ok((fields, _)) => match json_flaw(json) {
            None => Ok(fields),
            Some(message) => Err(message),
        },
    }
}

/// Fields, and where they end, or a message, by their views.
pub open spec fn fields_result_view(result: Result<(Vec<Option<Value>>, usize), String>) -> Result<
    (Seq<Option<ValueView>>, int),
    Seq<char>,
> {
    match result {
        Ok((fields, end)) => Ok((fields_view(fields@), end as int)),
        Err(message) => Err(message@),
    }
}

/// Says what is wrong with the object that `json` has at `open`.
fn flaw_of_object(json: &[u8], open: usize) -> (message: String)
    ensures
        message@ == object_flaw_at(json@, open as int),
{
    match object_flaw(blank(json, open).as_slice()) {
        Some(message) => message,
        None => no_text(),
    }
}

/// Says what is wrong with the array that `json` has at `open`.
fn flaw_of_array(json: &[u8], open: usize) -> (message: String)
    ensures
        message@ == array_flaw_at(json@, open as int),
{
    match array_flaw(blank(json, open).as_slice()) {
        Some(message) => message,
        None => no_text(),
    }
}

/// Finds the next element of an array.
fn find_element(json: &[u8], open: usize, at: usize, first: bool) -> (found: Result<
    Option<usize>,
    String,
>)
    requires
        at <= json@.len(),
    ensures
        match found {
            Ok(Some(start)) => next_element(json@, open as int, at as int, first) == Ok::<
                _,
                Seq<char>,
            >(Some(start as int)) && at <= start < json@.len(),
            Ok(None) => next_element(json@, open as int, at as int, first) == Ok::<_, Seq<char>>(
                None::<int>,
            ) && space_end(json@, at as int) < json@.len(),
            Err(message) => next_element(json@, open as int, at as int, first) == Err::<
                Option<int>,
                _,
            >(message@),
        },
{
    let next: usize = skip_space(json, at);
    if next == json.len() {
        Err(flaw_of_array(json, open))
    } else if json[next] == 0x5d {
        Ok(None)
    } else if first {
        Ok(Some(next))
    } else if json[next] == 0x2c {
        let element: usize = skip_space(json, next + 1);
        if element == json.len() || json[element] == 0x5d {
            Err(flaw_of_array(json, open))
        } else {
            Ok(Some(element))
        }
    } else {
        Err(flaw_of_array(json, open))
    }
}

/// Finds the end of an array whose last element ends at `at`.
fn find_array_end(json: &[u8], at: usize) -> (found: Result<usize, String>)
    requires
        at <= json@.len(),
    ensures
        match found {
            Ok(end) => array_end(json@, at as int) == Ok::<_, Seq<char>>(end as int) && end
                <= json@.len(),
            Err(message) => array_end(json@, at as int) == Err::<int, _>(message@),
        },
{
    let next: usize = skip_space(json, at);
    if next == json.len() {
        Err(with_place_past("EOF while parsing a list".to_owned(), json, next))
    } else if json[next] == 0x5d {
        Ok(next + 1)
    } else if json[next] == 0x2c {
        let further: usize = skip_space(json, next + 1);
        if further < json.len() && json[further] == 0x5d {
            Err(with_place_past("trailing comma".to_owned(), json, further))
        } else {
            Err(with_place_past("trailing characters".to_owned(), json, further))
        }
    } else {
        Err(with_place_past("trailing characters".to_owned(), json, next))
    }
}

/// Finds the name of the next member of an object.
fn find_name(json: &[u8], open: usize, at: usize, first: bool) -> (found: Result<
    Option<(String, usize)>,
    String,
>)
    requires
        at <= json@.len(),
    ensures
        match found {
            Ok(Some((name, end))) => next_name(json@, open as int, at as int, first) == Ok::<
                _,
                Seq<char>,
            >(Some((name@, end as int))) && at < end <= json@.len(),
            Ok(None) => next_name(json@, open as int, at as int, first) == Ok::<_, Seq<char>>(
                None::<(Seq<char>, int)>,
            ) && space_end(json@, at as int) < json@.len(),
            Err(message) => next_name(json@, open as int, at as int, first) == Err::<
                Option<(Seq<char>, int)>,
                _,
            >(message@),
        },
{
    let next: usize = skip_space(json, at);
    if next == json.len() {
        return Err(flaw_of_object(json, open));
    }
    if json[next] == 0x7d {
        return Ok(None);
    }
    if !first && json[next] != 0x2c {
        return Err(flaw_of_object(json, open));
    }
    let name: usize = if first {
        next
    } else {
        skip_space(json, next + 1)
    };
    if name == json.len() || json[name] != 0x22 {
        return Err(flaw_of_object(json, open));
    }
    match read_text_at(json, name) {
        Ok((text, end)) => Ok(Some((text, end))),
        Err(_) => Err(flaw_of_object(json, open)),
    }
}

/// Finds the value of a member whose name ends at `at`.
fn find_member_value(json: &[u8], open: usize, at: usize) -> (found: Result<usize, String>)
    requires
        at <= json@.len(),
    ensures
        match found {
            Ok(start) => member_value(json@, open as int, at as int) == Ok::<_, Seq<char>>(
                start as int,
            ) && at < start <= json@.len(),
            Err(message) => member_value(json@, open as int, at as int) == Err::<int, _>(message@),
        },
{
    let next: usize = skip_space(json, at);
    if next < json.len() && json[next] == 0x3a {
        Ok(next + 1)
    } else {
        Err(flaw_of_object(json, open))
    }
}

/// Finds the field called `name`.
fn find_field(fields: &Vec<(&'static str, Kind)>, shape: Shape, name: &str) -> (found: Option<usize>)
    requires
        fields@.len() == shape.names().len(),
        forall|i: int| 0 <= i < fields@.len() ==> (#[trigger] fields@[i]).0@ == shape.names()[i],
    ensures
        match found {
            Some(i) => field_called(shape.names(), name@, 0) == Some(i as int) && i < fields@.len(),
            None => field_called(shape.names(), name@, 0) is None,
        },
{
    let mut i: usize = 0;
    while i < fields.len()
        invariant
            i <= fields@.len(),
            fields@.len() == shape.names().len(),
            forall|k: int|
                0 <= k < fields@.len() ==> (#[trigger] fields@[k]).0@ == shape.names()[k],
            field_called(shape.names(), name@, 0) == field_called(shape.names(), name@, i as int),
        decreases fields.len() - i,
    {
        assert(fields@[i as int].0@ == shape.names()[i as int]);
        if text::same_text(fields[i].0, name) {
            return Some(i);
        }
        i += 1;
    }
    None
}

/// Finds the first field that has no value.
fn find_missing(fields: &Vec<Option<Value>>) -> (found: Option<usize>)
    ensures
        match found {
            Some(i) => first_missing(fields_view(fields@), 0) == Some(i as int) && i < fields@.len(),
            None => first_missing(fields_view(fields@), 0) is None,
        },
{
    let ghost view = fields_view(fields@);
    let mut i: usize = 0;
    while i < fields.len()
        invariant
            i <= fields@.len(),
            view == fields_view(fields@),
            first_missing(view, 0) == first_missing(view, i as int),
        decreases fields.len() - i,
    {
        assert(view[i as int] is None <==> fields@[i as int] is None);
        if fields[i].is_none() {
            return Some(i);
        }
        i += 1;
    }
    None
}

/// Reads a value of the given kind at `at`.
fn read_value_at(json: &[u8], at: usize, kind: Kind) -> (read: Result<(Value, usize), String>)
    requires
        at <= json@.len(),
    ensures
        match read {
            Ok((value, end)) => value_at(json@, at as int, kind) == Ok::<_, Seq<char>>(
                (value@, end as int),
            ) && end <= json@.len(),
            Err(message) => value_at(json@, at as int, kind) == Err::<(ValueView, int), _>(message@),
        },
    decreases kind.depth(), 1int,
{
    match kind {
        Kind::Text => match read_text_at(json, at) {
            Ok((value, end)) => Ok((Value::Text(value), end)),
            Err(message) => Err(message),
        },
        Kind::Number => match read_number_at(json, at) {
            Ok((value, end)) => Ok((Value::Number(value), end)),
            Err(message) => Err(message),
        },
        Kind::Records(element) => {
            let open: usize = skip_space(json, at);
            if open < json.len() && json[open] == 0x5b {
                match read_elements(json, open, element) {
                    Ok((places, end)) => Ok((Value::Places(places), end)),
                    Err(message) => Err(message),
                }
            } else {
                Err(flaw_of_array(json, open))
            }
        },
    }
}

/// Reads the list of records that `json` has at `open`.
fn read_elements(json: &[u8], open: usize, element: Shape) -> (read: Result<
    (Vec<usize>, usize),
    String,
>)
    requires
        open < json@.len(),
    ensures
        match read {
            Ok((places, end)) => elements_from(
                json@,
                open as int,
                open + 1,
                element,
                Seq::empty(),
            ) == Ok::<_, Seq<char>>((places_view(places@), end as int)) && end <= json@.len(),
            Err(message) => elements_from(json@, open as int, open + 1, element, Seq::empty())
                == Err::<(Seq<int>, int), _>(message@),
        },
    decreases element.depth() + 1, 0int,
{
    let len: usize = json.len();
    let mut places: Vec<usize> = Vec::new();
    let mut at: usize = open + 1;
    let ghost whole = elements_from(json@, open as int, open + 1, element, Seq::empty());
    assert(places_view(places@) =~= Seq::<int>::empty());
    loop
        invariant
            open < json@.len(),
            at <= json@.len() == len,
            whole == elements_from(
                json@,
                open as int,
                open + 1,
                element,
                Seq::empty(),
            ),
            whole == elements_from(json@, open as int, at as int, element, places_view(places@)),
        decreases json@.len() - at,
    {
        match find_element(json, open, at, places.len() == 0) {
            Err(message) => {
                return Err(message);
            },
            Ok(None) => {
                return Ok((places, skip_space(json, at) + 1));
            },
            Ok(Some(start)) => match read_record_at(json, start, element) {
                Err(message) => {
                    return Err(message);
                },
                Ok((_, end)) => {
                    if end <= start {
                        return Err(flaw_of_array(json, open));
                    }
                    let ghost before = places@;
                    places.push(start);
                    assert(places_view(places@) =~= places_view(before).push(start as int));
                    at = end;
                },
            },
        }
    }
}

/// Reads the record that `json` has at `at`.
pub fn read_record_at(json: &[u8], at: usize, shape: Shape) -> (read: Result<
    (Vec<Option<Value>>, usize),
    String,
>)
    requires
        at <= json@.len(),
    ensures
        fields_result_view(read) == record_at(json@, at as int, shape),
        read matches Ok((_, end)) ==> end <= json@.len(),
    decreases shape.depth(), 2int,
{
    let open: usize = skip_space(json, at);
    if open < json.len() && json[open] == 0x7b {
        let (fields, end): (Vec<Option<Value>>, usize) = read_members(json, open, shape)?;
        match find_missing(&fields) {
            Some(i) => {
                let names: Vec<(&'static str, Kind)> = shape.list_fields();
                proof {
                    wire::lemma_shape(shape);
                    lemma_members_fit(
                        json@,
                        open as int,
                        open + 1,
                        shape,
                        true,
                        Seq::new(shape.names().len(), |i: int| None),
                    );
                }
                let message = "missing field `".to_owned().concat(names[i].0).concat("`");
                Err(with_place(message, json, end))
            },
            None => Ok((fields, end)),
        }
    } else if open < json.len() && json[open] == 0x5b {
        read_positions(json, open, shape)
    } else {
        let message = flaw_of_object(json, open);
        Err(replace_last(message.as_str(), "a map", shape.write_title()))
    }
}

/// Fields without any value yet.
fn no_fields(n: usize) -> (fields: Vec<Option<Value>>)
    ensures
        fields@.len() == n,
        fields_view(fields@) == Seq::new(n as nat, |i: int| None::<ValueView>),
{
    let mut fields: Vec<Option<Value>> = Vec::new();
    let mut i: usize = 0;
    while i < n
        invariant
            i <= n,
            fields@.len() == i,
            forall|k: int| 0 <= k < i ==> fields@[k] is None,
        decreases n - i,
    {
        fields.push(None);
        i += 1;
    }
    assert(fields_view(fields@) =~= Seq::new(n as nat, |i: int| None::<ValueView>));
    fields
}

/// Reads the record that is the object that `json` has at `open`.
fn read_members(json: &[u8], open: usize, shape: Shape) -> (read: Result<
    (Vec<Option<Value>>, usize),
    String,
>)
    requires
        open < json@.len(),
    ensures
        fields_result_view(read) == members_from(
            json@,
            open as int,
            open + 1,
            shape,
            true,
            Seq::new(shape.names().len(), |i: int| None),
        ),
        read matches Ok((_, end)) ==> end <= json@.len(),
    decreases shape.depth(), 1int,
{
    let len: usize = json.len();
    let known: Vec<(&'static str, Kind)> = shape.list_fields();
    let mut fields: Vec<Option<Value>> = no_fields(known.len());
    let mut at: usize = open + 1;
    let mut first: bool = true;
    let ghost whole = members_from(
        json@,
        open as int,
        open + 1,
        shape,
        true,
        Seq::new(shape.names().len(), |i: int| None),
    );
    loop
        invariant
            at <= json@.len() == len,
            known@.len() == shape.names().len(),
            known@.len() == shape.kinds().len(),
            forall|i: int|
                0 <= i < known@.len() ==> (#[trigger] known@[i]).0@ == shape.names()[i]
                    && known@[i].1 == shape.kinds()[i],
            fields@.len() == known@.len(),
            whole == members_from(
                json@,
                open as int,
                open + 1,
                shape,
                true,
                Seq::new(shape.names().len(), |i: int| None),
            ),
            whole == members_from(
                json@,
                open as int,
                at as int,
                shape,
                first,
                fields_view(fields@),
            ),
        decreases json@.len() - at,
    {
        let (name, name_end): (String, usize) = match find_name(json, open, at, first) {
            Err(message) => {
                return Err(message);
            },
            Ok(None) => {
                return Ok((fields, skip_space(json, at) + 1));
            },
            Ok(Some(found)) => found,
        };
        let field: Option<usize> = find_field(&known, shape, name.as_str());
        if let Some(i) = field {
            assert(fields_view(fields@)[i as int] is Some <==> fields@[i as int] is Some);
            if fields[i].is_some() {
                let next: usize = skip_space(json, name_end);
                let end: usize = if next < json.len() && json[next] == 0x7d {
                    next + 1
                } else {
                    next
                };
                let message = "duplicate field `".to_owned().concat(name.as_str()).concat("`");
                return Err(with_place(message, json, end));
            }
        }
        let start: usize = match find_member_value(json, open, name_end) {
            Err(message) => {
                return Err(message);
            },
            Ok(start) => start,
        };
        match field {
            Some(i) => {
                proof {
                    wire::lemma_shape(shape);
                    assert(known@[i as int].1 == shape.kinds()[i as int]);
                }
                match read_value_at(json, start, known[i].1) {
                    Err(message) => {
                        return Err(message);
                    },
                    Ok((value, end)) => {
                        if end <= at {
                            return Err(flaw_of_object(json, open));
                        }
                        let ghost before = fields@;
                        let ghost view = value@;
                        fields.set(i, Some(value));
                        assert(fields_view(fields@) =~= fields_view(before).update(
                            i as int,
                            Some(view),
                        ));
                        at = end;
                    },
                }
            },
            None => match skip_value(json, start) {
                Some(end) => {
                    at = end;
                },
                None => {
                    return Err(flaw_of_object(json, open));
                },
            },
        }
        first = false;
    }
}

/// Reads the record that is the array that `json` has at `open`.
fn read_positions(json: &[u8], open: usize, shape: Shape) -> (read: Result<
    (Vec<Option<Value>>, usize),
    String,
>)
    requires
        open < json@.len(),
    ensures
        fields_result_view(read) == positions_from(
            json@,
            open as int,
            open + 1,
            shape,
            Seq::empty(),
        ),
        read matches Ok((_, end)) ==> end <= json@.len(),
    decreases shape.depth(), 1int,
{
    let len: usize = json.len();
    let known: Vec<(&'static str, Kind)> = shape.list_fields();
    let mut fields: Vec<Option<Value>> = Vec::new();
    let mut at: usize = open + 1;
    let ghost whole = positions_from(json@, open as int, open + 1, shape, Seq::empty());
    assert(fields_view(fields@) =~= Seq::<Option<ValueView>>::empty());
    while fields.len() < known.len()
        invariant
            at <= json@.len() == len,
            fields@.len() <= known@.len(),
            known@.len() == shape.names().len(),
            known@.len() == shape.kinds().len(),
            forall|i: int|
                0 <= i < known@.len() ==> (#[trigger] known@[i]).0@ == shape.names()[i]
                    && known@[i].1 == shape.kinds()[i],
            whole == positions_from(json@, open as int, open + 1, shape, Seq::empty()),
            whole == positions_from(json@, open as int, at as int, shape, fields_view(fields@)),
        decreases known.len() - fields.len(),
    {
        let n: usize = fields.len();
        match find_element(json, open, at, n == 0) {
            Err(message) => {
                return Err(message);
            },
            Ok(None) => {
                let count: String = if known.len() == 1 {
                    " with 1 element".to_owned()
                } else {
                    " with ".to_owned().concat(
                        text::unsigned_text(known.len() as u128).as_str(),
                    ).concat(" elements")
                };
                let message = "invalid length ".to_owned().concat(
                    text::unsigned_text(n as u128).as_str(),
                ).concat(", expected ").concat(shape.write_title()).concat(count.as_str());
                return Err(with_place(message, json, skip_space(json, at) + 1));
            },
            Ok(Some(start)) => {
                proof {
                    wire::lemma_shape(shape);
                    assert(known@[n as int].1 == shape.kinds()[n as int]);
                }
                match read_value_at(json, start, known[n].1) {
                    Err(message) => {
                        return Err(message);
                    },
                    Ok((value, end)) => {
                        let ghost before = fields@;
                        let ghost view = value@;
                        fields.push(Some(value));
                        assert(fields_view(fields@) =~= fields_view(before).push(Some(view)));
                        at = end;
                    },
                }
            },
        }
    }
    match find_array_end(json, at) {
        Ok(end) => Ok((fields, end)),
        Err(message) => Err(message),
    }
}

/// Fields, or a message, by their views.
pub open spec fn record_view(result: Result<Vec<Option<Value>>, String>) -> Result<
    Seq<Option<ValueView>>,
    Seq<char>,
> {
    match result {
        Ok(fields) => Ok(fields_view(fields@)),
        Err(message) => Err(message@),
    }
}

/// Reads a text as one record.
pub fn read_record(json: &[u8], shape: Shape) -> (read: Result<Vec<Option<Value>>, String>)
    ensures
        record_view(read) == record_in(json@, shape),
{
    let (fields, _): (Vec<Option<Value>>, usize) = read_record_at(json, 0, shape)?;
    match flaw(json) {
        None => Ok(fields),
        Some(message) => Err(message),
    }
}

/// A decoded value, or the message that says what is wrong, by their views.
pub open spec fn decoded_view<T: View>(decoded: Result<T, String>) -> Result<T::V, Seq<char>> {
    match decoded {
        Ok(value) => Ok(value@),
        Err(message) => Err(message@),
    }
}

/// The text that a field holds.
pub open spec fn text_in(fields: Seq<Option<ValueView>>, i: int) -> Seq<char> {
    fields[i]->Some_0->Text_0
}

/// The number that a field holds.
pub open spec fn number_in(fields: Seq<Option<ValueView>>, i: int) -> i64 {
    fields[i]->Some_0->Number_0
}

/// Takes the text out of a field.
pub fn text_of(fields: &Vec<Option<Value>>, i: usize) -> (text: String)
    requires
        i < fields@.len(),
        fields_view(fields@)[i as int] matches Some(ValueView::Text(_)),
    ensures
        text@ == text_in(fields_view(fields@), i as int),
{
    assert(fields@[i as int] matches Some(Value::Text(_)));
    match &fields[i] {
        Some(Value::Text(text)) => text.clone(),
        _ => no_text(),
    }
}

/// Takes the number out of a field.
pub fn number_of(fields: &Vec<Option<Value>>, i: usize) -> (number: i64)
    requires
        i < fields@.len(),
        fields_view(fields@)[i as int] matches Some(ValueView::Number(_)),
    ensures
        number == number_in(fields_view(fields@), i as int),
{
    assert(fields@[i as int] matches Some(Value::Number(_)));
    match &fields[i] {
        Some(Value::Number(number)) => *number,
        _ => 0,
    }
}

/// Whether records can be read at each of `places`, which stand in the text one after
/// the other.
pub open spec fn are_records(json: Seq<u8>, element: Shape, places: Seq<int>) -> bool {
    &&& forall|i: int|
        0 <= i < places.len() ==> 0 <= #[trigger] places[i] < json.len() && record_at(
            json,
            places[i],
            element,
        ) is Ok
    &&& forall|i: int, j: int| 0 <= i < j < places.len() ==> places[i] < places[j]
}

/// Whether a value is of the given kind.
pub open spec fn is_of_kind(json: Seq<u8>, value: ValueView, kind: Kind) -> bool {
    match kind {
        Kind::Text => value is Text,
        Kind::Number => value is Number,
        Kind::Records(element) => value matches ValueView::Places(places) && are_records(
            json,
            element,
            places,
        ),
    }
}

/// Whether `fields` are the fields of a record, as far as they have values.
pub open spec fn fields_fit(
    json: Seq<u8>,
    fields: Seq<Option<ValueView>>,
    shape: Shape,
) -> bool {
    &&& fields.len() == shape.kinds().len()
    &&& forall|i: int|
        0 <= i < fields.len() ==> (#[trigger] fields[i] matches Some(value) ==> is_of_kind(
            json,
            value,
            shape.kinds()[i],
        ))
}

/// The places of a list are those of its records.
proof fn lemma_elements_are_records(
    json: Seq<u8>,
    open: int,
    at: int,
    element: Shape,
    places: Seq<int>,
)
    requires
        0 <= at <= json.len(),
        are_records(json, element, places),
        forall|i: int| 0 <= i < places.len() ==> #[trigger] places[i] < at,
    ensures
        elements_from(json, open, at, element, places) matches Ok((all, _)) ==> are_records(
            json,
            element,
            all,
        ),
    decreases json.len() - at,
{
    lemma_space_end(json, at);
    if let Ok(Some(start)) = next_element(json, open, at, places.len() == 0) {
        lemma_space_end(json, space_end(json, at) + 1);
        if let Ok((_, end)) = record_at(json, start, element) {
            if at <= start < end <= json.len() {
                lemma_elements_are_records(json, open, end, element, places.push(start));
            }
        }
    }
}

/// A value that is read is of its kind.
proof fn lemma_value_fits(json: Seq<u8>, at: int, kind: Kind)
    ensures
        value_at(json, at, kind) matches Ok((value, _)) ==> is_of_kind(json, value, kind),
{
    if let Kind::Records(element) = kind {
        let open = space_end(json, at);
        if 0 <= open < json.len() {
            lemma_elements_are_records(json, open, open + 1, element, Seq::empty());
        }
    }
}

/// Looking at members keeps the fields in order.
proof fn lemma_members_fit(
    json: Seq<u8>,
    open: int,
    at: int,
    shape: Shape,
    first: bool,
    fields: Seq<Option<ValueView>>,
)
    requires
        fields_fit(json, fields, shape),
    ensures
        members_from(json, open, at, shape, first, fields) matches Ok((after, _)) ==> fields_fit(
            json,
            after,
            shape,
        ),
    decreases json.len() - at,
{
    wire::lemma_shape(shape);
    if let Ok(Some((name, name_end))) = next_name(json, open, at, first) {
        lemma_field_called(shape.names(), name, 0);
        if let Ok(start) = member_value(json, open, name_end) {
            if let Some(i) = field_called(shape.names(), name, 0) {
                if let Ok((value, end)) = value_at(json, start, shape.kinds()[i]) {
                    lemma_value_fits(json, start, shape.kinds()[i]);
                    if at < end <= json.len() {
                        lemma_members_fit(
                            json,
                            open,
                            end,
                            shape,
                            false,
                            fields.update(i, Some(value)),
                        );
                    }
                }
            } else if let Some(end) = skipped_end(json, start) {
                if at < end <= json.len() {
                    lemma_members_fit(json, open, end, shape, false, fields);
                }
            }
        }
    }
}

/// Looking at elements keeps the fields in order.
proof fn lemma_positions_fit(
    json: Seq<u8>,
    open: int,
    at: int,
    shape: Shape,
    fields: Seq<Option<ValueView>>,
)
    requires
        fields.len() <= shape.kinds().len(),
        forall|i: int|
            0 <= i < fields.len() ==> (#[trigger] fields[i] matches Some(value) && is_of_kind(
                json,
                value,
                shape.kinds()[i],
            )),
    ensures
        positions_from(json, open, at, shape, fields) matches Ok((after, _)) ==> fields_fit(
            json,
            after,
            shape,
        ) && forall|i: int| 0 <= i < after.len() ==> #[trigger] after[i] is Some,
    decreases shape.kinds().len() - fields.len(),
{
    if fields.len() < shape.kinds().len() {
        if let Ok(Some(start)) = next_element(json, open, at, fields.len() == 0) {
            if let Ok((value, end)) = value_at(json, start, shape.kinds()[fields.len() as int]) {
                lemma_value_fits(json, start, shape.kinds()[fields.len() as int]);
                lemma_positions_fit(json, open, end, shape, fields.push(Some(value)));
            }
        }
    }
}

/// Where no field is missing, each has a value.
proof fn lemma_none_missing(fields: Seq<Option<ValueView>>, from: int)
    requires
        0 <= from,
        first_missing(fields, from) is None,
    ensures
        forall|i: int| from <= i < fields.len() ==> #[trigger] fields[i] is Some,
    decreases fields.len() - from,
{
    if from < fields.len() {
        lemma_none_missing(fields, from + 1);
    }
}

/// A record that is read has a value of the right kind for each of its fields.
pub proof fn law_a_record_has_all_its_fields(json: Seq<u8>, at: int, shape: Shape)
    ensures
        record_at(json, at, shape) matches Ok((fields, _)) ==> {
            &&& fields.len() == shape.kinds().len()
            &&& forall|i: int|
                0 <= i < fields.len() ==> (#[trigger] fields[i] matches Some(value) && is_of_kind(
                    json,
                    value,
                    shape.kinds()[i],
                ))
        },
{
    wire::lemma_shape(shape);
    let open = space_end(json, at);
    let none: Seq<Option<ValueView>> = Seq::new(shape.names().len(), |i: int| None);
    lemma_members_fit(json, open, open + 1, shape, true, none);
    lemma_positions_fit(json, open, open + 1, shape, Seq::empty());
    if let Ok((fields, _)) = members_from(json, open, open + 1, shape, true, none) {
        if first_missing(fields, 0) is None {
            lemma_none_missing(fields, 0);
        }
    }
}

/// A member that is no field of the record does not matter: with a value that can be
/// skipped, it leaves the fields as they are.
pub proof fn law_other_members_do_not_matter(
    json: Seq<u8>,
    open: int,
    at: int,
    shape: Shape,
    first: bool,
    fields: Seq<Option<ValueView>>,
    name: Seq<char>,
    name_end: int,
    start: int,
    end: int,
)
    requires
        next_name(json, open, at, first) == Ok::<_, Seq<char>>(Some((name, name_end))),
        !shape.names().contains(name),
        member_value(json, open, name_end) == Ok::<_, Seq<char>>(start),
        skipped_end(json, start) == Some(end),
        at < end,
    ensures
        members_from(json, open, at, shape, first, fields) == members_from(
            json,
            open,
            end,
            shape,
            false,
            fields,
        ),
{
    lemma_field_called(shape.names(), name, 0);
}

/// A member of an object: its name, and where its value starts.
pub struct Member {
    pub name: Seq<char>,
    pub start: int,
}

/// Where the value of a member ends that starts at `start`: a field's by its kind, and
/// any other where it can be skipped to.
pub open spec fn member_end(json: Seq<u8>, shape: Shape, name: Seq<char>, start: int) -> Option<
    int,
> {
    match field_called(shape.names(), name, 0) {
        Some(i) => match value_at(json, start, shape.kinds()[i]) {
            Ok((_, end)) => Some(end),
            Err(_) => None,
        },
        None => skipped_end(json, start),
    }
}

/// The members of an object after `at`, in the order in which they stand there.
pub open spec fn members_after(
    json: Seq<u8>,
    open: int,
    at: int,
    shape: Shape,
    first: bool,
) -> Seq<Member>
    decreases json.len() - at,
{
    match next_name(json, open, at, first) {
        Ok(Some((name, name_end))) => match member_value(json, open, name_end) {
            Ok(start) => match member_end(json, shape, name, start) {
                Some(end) if at < end <= json.len() => seq![Member { name, start }]
                    + members_after(json, open, end, shape, false),
                _ => Seq::empty(),
            },
            Err(_) => Seq::empty(),
        },
        _ => Seq::empty(),
    }
}

/// Whether exactly one of `members` is called as the field `i` is, and `value` is what
/// is read there.
pub open spec fn held_by_one(
    json: Seq<u8>,
    shape: Shape,
    members: Seq<Member>,
    i: int,
    value: ValueView,
) -> bool {
    exists|k: int|
        {
            &&& 0 <= k < members.len()
            &&& (#[trigger] members[k]).name == shape.names()[i]
            &&& value_at(json, members[k].start, shape.kinds()[i]) matches Ok((found, _))
            &&& found == value
            &&& forall|other: int|
                0 <= other < members.len() && (#[trigger] members[other]).name == shape.names()[i]
                    ==> other == k
        }
}

/// Whether none of `members` is called as the field `i` is.
pub open spec fn held_by_none(shape: Shape, members: Seq<Member>, i: int) -> bool {
    forall|k: int| 0 <= k < members.len() ==> (#[trigger] members[k]).name != shape.names()[i]
}

/// Whether `after` is what `members` make of `fields`: a field that had its value
/// keeps it, and any other has the value of the one member of its name, if there is
/// one.
spec fn filled_by(
    json: Seq<u8>,
    shape: Shape,
    members: Seq<Member>,
    fields: Seq<Option<ValueView>>,
    after: Seq<Option<ValueView>>,
) -> bool {
    &&& after.len() == fields.len()
    &&& forall|i: int|
        0 <= i < fields.len() ==> match #[trigger] fields[i] {
            Some(value) => after[i] == Some(value) && held_by_none(shape, members, i),
            None => match after[i] {
                Some(value) => held_by_one(json, shape, members, i, value),
                None => held_by_none(shape, members, i),
            },
        }
}

/// One more member in front fills its field, if it is one that had no value.
proof fn lemma_filled_by_one_more(
    json: Seq<u8>,
    shape: Shape,
    member: Member,
    rest: Seq<Member>,
    fields: Seq<Option<ValueView>>,
    next: Seq<Option<ValueView>>,
    after: Seq<Option<ValueView>>,
)
    requires
        fields.len() == shape.names().len(),
        filled_by(json, shape, rest, next, after),
        match field_called(shape.names(), member.name, 0) {
            Some(i) => {
                &&& fields[i] is None
                &&& value_at(json, member.start, shape.kinds()[i]) matches Ok((value, _))
                &&& next == fields.update(i, Some(value))
            },
            None => next == fields,
        },
    ensures
        filled_by(json, shape, seq![member] + rest, fields, after),
{
    let members = seq![member] + rest;
    let called = field_called(shape.names(), member.name, 0);
    lemma_field_called(shape.names(), member.name, 0);
    wire::law_names_differ(shape);
    assert forall|k: int| 0 < k < members.len() implies #[trigger] members[k] == rest[k - 1] by {}
    assert(members[0] == member);
    assert forall|i: int| 0 <= i < fields.len() implies match #[trigger] fields[i] {
        Some(value) => after[i] == Some(value) && held_by_none(shape, members, i),
        None => match after[i] {
            Some(value) => held_by_one(json, shape, members, i, value),
            None => held_by_none(shape, members, i),
        },
    } by {
        lemma_called_if_named(shape.names(), member.name, 0, i);
        if called == Some(i) {
            assert(next[i] is Some);
            assert(held_by_none(shape, rest, i));
            assert(members[0].name == shape.names()[i]);
            assert(held_by_one(json, shape, members, i, after[i]->Some_0));
        } else {
            assert(next[i] == fields[i]);
            assert(member.name != shape.names()[i]);
            if fields[i] is None && after[i] is Some {
                let value = after[i]->Some_0;
                assert(held_by_one(json, shape, rest, i, value));
                let k = choose|k: int|
                    {
                        &&& 0 <= k < rest.len()
                        &&& (#[trigger] rest[k]).name == shape.names()[i]
                        &&& value_at(json, rest[k].start, shape.kinds()[i]) matches Ok((found, _))
                        &&& found == value
                        &&& forall|other: int|
                            0 <= other < rest.len() && (#[trigger] rest[other]).name
                                == shape.names()[i] ==> other == k
                    };
                assert(members[k + 1] == rest[k]);
                assert forall|other: int|
                    0 <= other < members.len() && (#[trigger] members[other]).name
                        == shape.names()[i] implies other == k + 1 by {
                    if other > 0 {
                        assert(rest[other - 1].name == shape.names()[i]);
                    }
                }
            } else {
                assert(held_by_none(shape, rest, i));
                assert forall|k: int| 0 <= k < members.len() implies (#[trigger] members[k]).name
                    != shape.names()[i] by {
                    if k > 0 {
                        assert(rest[k - 1].name != shape.names()[i]);
                    }
                }
            }
        }
    }
}

/// A name of a field is found, at that field or before.
proof fn lemma_called_if_named(names: Seq<Seq<char>>, name: Seq<char>, from: int, i: int)
    requires
        0 <= from <= i < names.len(),
    ensures
        names[i] == name ==> field_called(names, name, from) is Some,
    decreases i - from,
{
    if from < i && names[from] != name {
        lemma_called_if_named(names, name, from + 1, i);
    }
}

/// The members of an object fill the fields of a record.
proof fn lemma_filled_by_members(
    json: Seq<u8>,
    open: int,
    at: int,
    shape: Shape,
    first: bool,
    fields: Seq<Option<ValueView>>,
)
    requires
        fields.len() == shape.names().len(),
    ensures
        members_from(json, open, at, shape, first, fields) matches Ok((after, _)) ==> filled_by(
            json,
            shape,
            members_after(json, open, at, shape, first),
            fields,
            after,
        ),
    decreases json.len() - at,
{
    wire::lemma_shape(shape);
    if let Ok((after, _)) = members_from(json, open, at, shape, first, fields) {
        if let Ok(Some((name, name_end))) = next_name(json, open, at, first) {
            lemma_field_called(shape.names(), name, 0);
            let start = member_value(json, open, name_end)->Ok_0;
            let member = Member { name, start };
            let end = member_end(json, shape, name, start)->Some_0;
            let next = match field_called(shape.names(), name, 0) {
                Some(i) => fields.update(
                    i,
                    Some(value_at(json, start, shape.kinds()[i])->Ok_0.0),
                ),
                None => fields,
            };
            lemma_filled_by_members(json, open, end, shape, false, next);
            lemma_filled_by_one_more(
                json,
                shape,
                member,
                members_after(json, open, end, shape, false),
                fields,
                next,
                after,
            );
        } else {
            assert(members_after(json, open, at, shape, first) =~= Seq::empty());
        }
    }
}

/// In a record that is read from an object, each field holds the value that is read at
/// the one member of its name, wherever in the object that member stands; and there is
/// exactly one such member.
pub proof fn law_each_field_is_the_member_of_its_name(json: Seq<u8>, at: int, shape: Shape)
    requires
        0 <= space_end(json, at) < json.len(),
        json[space_end(json, at)] == 0x7b,
    ensures
        record_at(json, at, shape) matches Ok((fields, _)) ==> {
            let open = space_end(json, at);
            let members = members_after(json, open, open + 1, shape, true);
            &&& fields.len() == shape.names().len()
            &&& forall|i: int|
                0 <= i < fields.len() ==> (#[trigger] fields[i] matches Some(value)
                    && held_by_one(json, shape, members, i, value))
        },
{
    let open = space_end(json, at);
    let none: Seq<Option<ValueView>> = Seq::new(shape.names().len(), |i: int| None);
    lemma_filled_by_members(json, open, open + 1, shape, true, none);
    if let Ok((fields, _)) = record_at(json, at, shape) {
        lemma_none_missing(fields, 0);
        assert forall|i: int| 0 <= i < fields.len() implies (#[trigger] fields[i] matches Some(value)
            && held_by_one(
            json,
            shape,
            members_after(json, open, open + 1, shape, true),
            i,
            value,
        )) by {
            assert(none[i] is None);
        }
    }
}

/// The JSON text of an object with one integer member.
pub open spec fn integer_object(name: Seq<char>, value: int) -> Seq<char> {
    "{\""@ + name + "\":"@ + text::decimal(value) + "}"@
}

/// Writes an object with one integer member. `name` is written as it stands.
pub fn write_integer_object(name: &str, value: i64) -> (json: Vec<u8>)
    ensures
        json@ == vstd::utf8::encode_utf8(integer_object(name@, value as int)),
{
    let object = "{\"".to_owned().concat(name).concat("\":").concat(
        text::signed_text(value).as_str(),
    ).concat("}");
    object.as_str().as_bytes_vec()
}

/// White space ends at the first byte from `at` on that is no space, tab, line feed or
/// carriage return, or at the end of the text.
pub proof fn law_space_ends_at_the_first_other_byte(json: Seq<u8>, at: int)
    requires
        0 <= at <= json.len(),
    ensures
        at <= space_end(json, at) <= json.len(),
        forall|i: int|
            at <= i < space_end(json, at) ==> (#[trigger] json[i] == 0x20 || json[i] == 0x09
                || json[i] == 0x0a || json[i] == 0x0d),
        space_end(json, at) < json.len() ==> {
            let next = json[space_end(json, at)];
            next != 0x20 && next != 0x09 && next != 0x0a && next != 0x0d
        },
    decreases json.len() - at,
{
    if at < json.len() && is_space(json[at]) {
        law_space_ends_at_the_first_other_byte(json, at + 1);
    }
}

/// Blanking leaves everything from `at` on, and the lines before it, where they are.
pub proof fn law_blanking_keeps_the_rest_and_the_lines(json: Seq<u8>, at: int)
    requires
        0 <= at <= json.len(),
    ensures
        blanked(json, at).len() == json.len(),
        blanked(json, at).skip(at) == json.skip(at),
        forall|i: int|
            0 <= i < at ==> #[trigger] blanked(json, at)[i] == (if json[i] == 0x0a {
                0x0au8
            } else {
                0x20u8
            }),
{
    assert(blanked(json, at).skip(at) =~= json.skip(at));
}

/// A place is told by its line, which is one more than the line feeds before it, and
/// its column, which is how far it is from the last of them, or from the start.
pub proof fn law_a_place_is_a_line_and_a_column(json: Seq<u8>, at: int)
    requires
        0 <= at <= json.len(),
    ensures
        place(json, at) == " at line "@ + text::decimal(
            json.take(at).filter(|byte: u8| byte == 0x0a).len() as int + 1,
        ) + " column "@ + text::decimal(column_of(json, at)),
        0 <= column_of(json, at) <= at,
        forall|i: int| at - column_of(json, at) <= i < at ==> #[trigger] json[i] != 0x0a,
        column_of(json, at) < at ==> json[at - column_of(json, at) - 1] == 0x0a,
{
    lemma_lines_are_counted(json, at);
    lemma_column(json, at);
}

/// The lines before a place are the line feeds before it.
proof fn lemma_lines_are_counted(json: Seq<u8>, at: int)
    requires
        0 <= at <= json.len(),
    ensures
        lines_before(json, at) == json.take(at).filter(|byte: u8| byte == 0x0a).len(),
    decreases at,
{
    reveal(Seq::filter);
    let is_feed = |byte: u8| byte == 0x0a;
    if at > 0 {
        lemma_lines_are_counted(json, at - 1);
        assert(json.take(at).drop_last() =~= json.take(at - 1));
        assert(json.take(at).last() == json[at - 1]);
    }
}

/// No line feed stands within a column.
proof fn lemma_column(json: Seq<u8>, at: int)
    requires
        0 <= at <= json.len(),
    ensures
        0 <= column_of(json, at) <= at,
        forall|i: int| at - column_of(json, at) <= i < at ==> #[trigger] json[i] != 0x0a,
        column_of(json, at) < at ==> json[at - column_of(json, at) - 1] == 0x0a,
    decreases at,
{
    if at > 0 && json[at - 1] != 0x0a {
        lemma_column(json, at - 1);
    }
}

/// Whether `serde_json` takes the text from `start` to `end` for one value.
pub open spec fn spans(json: Seq<u8>, start: int, end: int) -> bool {
    &&& 0 <= start <= json.len()
    &&& end == start + json_value_end(json.skip(start))
    &&& space_end(json, start) < end <= json.len()
}

/// Whether records stand at `places`, one after the other, with commas between them,
/// and the list ends with the mark at `close`.
pub open spec fn elements_stand(
    json: Seq<u8>,
    at: int,
    first: bool,
    element: Shape,
    places: Seq<int>,
    close: int,
) -> bool
    decreases places.len(),
{
    if places.len() == 0 {
        close == space_end(json, at) && close < json.len() && json[close] == 0x5d
    } else {
        let next = space_end(json, at);
        let start = places[0];
        &&& next < json.len()
        &&& if first {
            start == next && json[next] != 0x5d
        } else {
            json[next] == 0x2c && start == space_end(json, next + 1)
        }
        &&& at <= start < json.len()
        &&& json[start] != 0x5d
        &&& record_at(json, start, element) matches Ok((_, end))
        &&& start < end <= json.len()
        &&& elements_stand(json, end, false, element, places.skip(1), close)
    }
}

/// Whether `json` has, from `start` to `end`, `value` as a value of the given kind: the
/// string or the integer that `serde_json` reads there, whole, or a list.
pub open spec fn value_stands(
    json: Seq<u8>,
    start: int,
    kind: Kind,
    value: ValueView,
    end: int,
) -> bool {
    match (kind, value) {
        (Kind::Text, ValueView::Text(text)) => {
            &&& json_string(json.skip(start)) == Ok::<_, Seq<char>>(text)
            &&& spans(json, start, end)
        },
        (Kind::Number, ValueView::Number(number)) => {
            &&& json_integer(json.skip(start)) == Ok::<_, Seq<char>>(number)
            &&& spans(json, start, end)
        },
        (Kind::Records(element), ValueView::Places(places)) => {
            let open = space_end(json, start);
            &&& 0 <= open < json.len()
            &&& json[open] == 0x5b
            &&& elements_stand(json, open + 1, true, element, places, end - 1)
        },
        _ => false,
    }
}

/// A list is read if and only if it stands there.
proof fn lemma_elements_stand(
    json: Seq<u8>,
    open: int,
    at: int,
    element: Shape,
    done: Seq<int>,
    places: Seq<int>,
    close: int,
)
    requires
        0 <= at <= json.len(),
    ensures
        elements_from(json, open, at, element, done) == Ok::<_, Seq<char>>(
            (done + places, close + 1),
        ) <==> elements_stand(json, at, done.len() == 0, element, places, close),
    decreases json.len() - at,
{
    law_space_ends_at_the_first_other_byte(json, at);
    let next = space_end(json, at);
    if next < json.len() {
        law_space_ends_at_the_first_other_byte(json, next + 1);
    }
    match next_element(json, open, at, done.len() == 0) {
        Err(_) => {},
        Ok(None) => {
            if places.len() == 0 {
                assert(done + places =~= done);
            } else {
                assert((done + places).len() > done.len());
            }
        },
        Ok(Some(start)) => match record_at(json, start, element) {
            Err(_) => {},
            Ok((_, end)) => if at <= start < end <= json.len() {
                if places.len() > 0 && places[0] == start {
                    lemma_elements_stand(
                        json,
                        open,
                        end,
                        element,
                        done.push(start),
                        places.skip(1),
                        close,
                    );
                    assert(done.push(start) + places.skip(1) =~= done + places);
                } else {
                    lemma_elements_keep(json, open, end, element, done.push(start));
                    if elements_from(json, open, at, element, done) == Ok::<_, Seq<char>>(
                        (done + places, close + 1),
                    ) {
                        assert((done + places)[done.len() as int] == start);
                        assert((done + places).len() > done.len());
                        assert((done + places)[done.len() as int] == places[0]);
                    }
                }
            },
        },
    }
}

/// What was found of a list stays at its front.
proof fn lemma_elements_keep(json: Seq<u8>, open: int, at: int, element: Shape, done: Seq<int>)
    ensures
        elements_from(json, open, at, element, done) matches Ok((all, _)) ==> all.len()
            >= done.len() && all.take(done.len() as int) == done && (forall|i: int|
            0 <= i < done.len() ==> #[trigger] all[i] == done[i]),
    decreases json.len() - at,
{
    if let Ok(Some(start)) = next_element(json, open, at, done.len() == 0) {
        if let Ok((_, end)) = record_at(json, start, element) {
            if at <= start < end <= json.len() {
                lemma_elements_keep(json, open, end, element, done.push(start));
                if let Ok((all, _)) = elements_from(json, open, end, element, done.push(start)) {
                    assert forall|i: int| 0 <= i < done.len() implies #[trigger] all[i]
                        == done[i] by {
                        assert(done.push(start)[i] == done[i]);
                    }
                    assert(all.take(done.len() as int) =~= done);
                }
            }
        } else {
        }
    } else {
        assert(done.take(done.len() as int) =~= done);
    }
}

/// A value of a kind is read if and only if it stands there: a text or a number is what
/// `serde_json` reads, and nothing is taken from it or added to it.
pub proof fn law_a_value_is_read_as_it_stands(
    json: Seq<u8>,
    start: int,
    kind: Kind,
    value: ValueView,
    end: int,
)
    requires
        0 <= start <= json.len(),
    ensures
        value_at(json, start, kind) == Ok::<_, Seq<char>>((value, end)) <==> value_stands(
            json,
            start,
            kind,
            value,
            end,
        ),
{
    if let Kind::Records(element) = kind {
        law_space_ends_at_the_first_other_byte(json, start);
        let open = space_end(json, start);
        if open < json.len() && json[open] == 0x5b {
            if let ValueView::Places(places) = value {
                lemma_elements_stand(json, open, open + 1, element, Seq::empty(), places, end - 1);
                assert(Seq::<int>::empty() + places =~= places);
            }
        }
    }
}

/// A member of an object as it stands in the text: where its name starts, its name,
/// and where its value starts and ends.
pub struct MemberSpan {
    pub at: int,
    pub name: Seq<char>,
    pub start: int,
    pub end: int,
}

/// Whether a member stands in the text: its name, which is a string, and after a colon
/// its value, which is of the field's kind where the member is a field of the record,
/// and any value where it is not.
pub open spec fn member_stands(json: Seq<u8>, shape: Shape, member: MemberSpan) -> bool {
    let name_end = member.at + json_value_end(json.skip(member.at));
    &&& 0 <= member.at < json.len()
    &&& json[member.at] == 0x22
    &&& json_string(json.skip(member.at)) == Ok::<_, Seq<char>>(member.name)
    &&& spans(json, member.at, name_end)
    &&& space_end(json, name_end) < json.len()
    &&& json[space_end(json, name_end)] == 0x3a
    &&& member.start == space_end(json, name_end) + 1
    &&& member.start <= json.len()
    &&& member.end <= json.len()
    &&& forall|i: int|
        0 <= i < shape.names().len() && #[trigger] shape.names()[i] == member.name ==> exists|
            value: ValueView,
        | #[trigger]
            value_stands(json, member.start, shape.kinds()[i], value, member.end)
    &&& !shape.names().contains(member.name) ==> spans(json, member.start, member.end)
}

/// Whether `members` stand one after the other, with commas between them, and the
/// object ends with the mark at `close`.
pub open spec fn members_stand(
    json: Seq<u8>,
    at: int,
    first: bool,
    shape: Shape,
    members: Seq<MemberSpan>,
    close: int,
) -> bool
    decreases members.len(),
{
    if members.len() == 0 {
        close == space_end(json, at) && close < json.len() && json[close] == 0x7d
    } else {
        let next = space_end(json, at);
        &&& next < json.len()
        &&& if first {
            members[0].at == next
        } else {
            json[next] == 0x2c && members[0].at == space_end(json, next + 1)
        }
        &&& member_stands(json, shape, members[0])
        &&& at < members[0].end
        &&& members_stand(json, members[0].end, false, shape, members.skip(1), close)
    }
}

/// Whether exactly one of `members` is called as the field `i` is, and `value` stands
/// there.
pub open spec fn one_member_holds(
    json: Seq<u8>,
    shape: Shape,
    members: Seq<MemberSpan>,
    i: int,
    value: ValueView,
) -> bool {
    exists|k: int|
        {
            &&& 0 <= k < members.len()
            &&& (#[trigger] members[k]).name == shape.names()[i]
            &&& value_stands(json, members[k].start, shape.kinds()[i], value, members[k].end)
            &&& forall|other: int|
                0 <= other < members.len() && (#[trigger] members[other]).name == shape.names()[i]
                    ==> other == k
        }
}

/// A name that is a field's is found there.
proof fn lemma_field_found(shape: Shape, name: Seq<char>)
    ensures
        match field_called(shape.names(), name, 0) {
            Some(i) => 0 <= i < shape.names().len() && shape.names()[i] == name && (forall|j: int|
                0 <= j < shape.names().len() && #[trigger] shape.names()[j] == name ==> j == i),
            None => !shape.names().contains(name),
        },
{
    lemma_field_called(shape.names(), name, 0);
    wire::law_names_differ(shape);
    assert forall|j: int| 0 <= j < shape.names().len() && #[trigger] shape.names()[j] == name
        implies field_called(shape.names(), name, 0) == Some(j) by {
        lemma_called_if_named(shape.names(), name, 0, j);
        let i = field_called(shape.names(), name, 0)->Some_0;
        assert(shape.names()[i] == name);
    }
}

/// A member that is read as one stands there.
proof fn lemma_read_member_stands(
    json: Seq<u8>,
    open: int,
    at: int,
    shape: Shape,
    first: bool,
    name: Seq<char>,
    name_end: int,
    start: int,
    end: int,
) -> (member: MemberSpan)
    requires
        0 <= at <= json.len(),
        next_name(json, open, at, first) == Ok::<_, Seq<char>>(Some((name, name_end))),
        member_value(json, open, name_end) == Ok::<_, Seq<char>>(start),
        member_end(json, shape, name, start) == Some(end),
        end <= json.len(),
    ensures
        member_stands(json, shape, member),
        member.name == name,
        member.start == start,
        member.end == end,
        ({
            let next = space_end(json, at);
            &&& next < json.len()
            &&& if first {
                member.at == next
            } else {
                json[next] == 0x2c && member.at == space_end(json, next + 1)
            }
        }),
{
    wire::lemma_shape(shape);
    law_space_ends_at_the_first_other_byte(json, at);
    let next = space_end(json, at);
    law_space_ends_at_the_first_other_byte(json, next + 1);
    let name_at = if first {
        next
    } else {
        space_end(json, next + 1)
    };
    lemma_field_found(shape, name);
    law_space_ends_at_the_first_other_byte(json, name_end);
    let member = MemberSpan { at: name_at, name, start, end };
    assert forall|i: int| 0 <= i < shape.names().len() && #[trigger] shape.names()[i]
        == member.name implies exists|value: ValueView| #[trigger]
        value_stands(json, member.start, shape.kinds()[i], value, member.end) by {
        assert(field_called(shape.names(), name, 0) == Some(i));
        let value = value_at(json, start, shape.kinds()[i])->Ok_0.0;
        law_a_value_is_read_as_it_stands(json, start, shape.kinds()[i], value, end);
        assert(value_stands(json, member.start, shape.kinds()[i], value, member.end));
    }
    member
}

/// The members of an object that is read as a record.
proof fn lemma_read_members_stand(
    json: Seq<u8>,
    open: int,
    at: int,
    shape: Shape,
    first: bool,
    fields: Seq<Option<ValueView>>,
) -> (members: Seq<MemberSpan>)
    requires
        0 <= at <= json.len(),
        fields.len() == shape.names().len(),
    ensures
        members_from(json, open, at, shape, first, fields) matches Ok((after, end)) ==> {
            &&& members_stand(json, at, first, shape, members, end - 1)
            &&& after.len() == fields.len()
            &&& forall|i: int|
                0 <= i < fields.len() ==> match #[trigger] fields[i] {
                    Some(value) => after[i] == Some(value) && (forall|k: int|
                        0 <= k < members.len() ==> (#[trigger] members[k]).name
                            != shape.names()[i]),
                    None => match after[i] {
                        Some(value) => one_member_holds(json, shape, members, i, value),
                        None => forall|k: int|
                            0 <= k < members.len() ==> (#[trigger] members[k]).name
                                != shape.names()[i],
                    },
                }
        },
    decreases json.len() - at,
{
    wire::lemma_shape(shape);
    law_space_ends_at_the_first_other_byte(json, at);
    let next = space_end(json, at);
    if next < json.len() {
        law_space_ends_at_the_first_other_byte(json, next + 1);
    }
    if members_from(json, open, at, shape, first, fields) is Err {
        Seq::empty()
    } else {
        match next_name(json, open, at, first) {
            Ok(Some((name, name_end))) => {
                lemma_field_found(shape, name);
                let start = member_value(json, open, name_end)->Ok_0;
                let called = field_called(shape.names(), name, 0);
                let end = member_end(json, shape, name, start)->Some_0;
                let member = lemma_read_member_stands(
                    json,
                    open,
                    at,
                    shape,
                    first,
                    name,
                    name_end,
                    start,
                    end,
                );
                let filled = match called {
                    Some(i) => fields.update(
                        i,
                        Some(value_at(json, start, shape.kinds()[i])->Ok_0.0),
                    ),
                    None => fields,
                };
                if let Some(i) = called {
                    let value = value_at(json, start, shape.kinds()[i])->Ok_0.0;
                    law_space_ends_at_the_first_other_byte(json, name_end);
                    law_a_value_is_read_as_it_stands(json, start, shape.kinds()[i], value, end);
                }
                let rest = lemma_read_members_stand(json, open, end, shape, false, filled);
                let members = seq![member] + rest;
                assert(members.skip(1) =~= rest);
                assert(members[0] == member);
                let after = members_from(json, open, at, shape, first, fields)->Ok_0.0;
                assert forall|i: int| 0 <= i < fields.len() implies match #[trigger] fields[i] {
                    Some(value) => after[i] == Some(value) && (forall|k: int|
                        0 <= k < members.len() ==> (#[trigger] members[k]).name
                            != shape.names()[i]),
                    None => match after[i] {
                        Some(value) => one_member_holds(json, shape, members, i, value),
                        None => forall|k: int|
                            0 <= k < members.len() ==> (#[trigger] members[k]).name
                                != shape.names()[i],
                    },
                } by {
                    assert(filled[i] == filled[i]);
                    lemma_one_more_member(json, shape, member, rest, i, after[i]);
                }
                members
            },
            _ => Seq::empty(),
        }
    }
}

/// What one more member in front means for the field `i`.
proof fn lemma_one_more_member(
    json: Seq<u8>,
    shape: Shape,
    member: MemberSpan,
    rest: Seq<MemberSpan>,
    i: int,
    after: Option<ValueView>,
)
    ensures
        ({
            let members = seq![member] + rest;
            let absent = forall|k: int|
                0 <= k < rest.len() ==> (#[trigger] rest[k]).name != shape.names()[i];
            &&& member.name != shape.names()[i] && absent ==> forall|k: int|
                0 <= k < members.len() ==> (#[trigger] members[k]).name != shape.names()[i]
            &&& member.name != shape.names()[i] && after is Some && one_member_holds(
                json,
                shape,
                rest,
                i,
                after->Some_0,
            ) ==> one_member_holds(json, shape, members, i, after->Some_0)
            &&& member.name == shape.names()[i] && absent && after is Some && value_stands(
                json,
                member.start,
                shape.kinds()[i],
                after->Some_0,
                member.end,
            ) ==> one_member_holds(json, shape, members, i, after->Some_0)
        }),
{
    let members = seq![member] + rest;
    assert(members[0] == member);
    assert forall|k: int| 0 < k < members.len() implies #[trigger] members[k] == rest[k - 1] by {}
    if member.name != shape.names()[i] && after is Some && one_member_holds(
        json,
        shape,
        rest,
        i,
        after->Some_0,
    ) {
        let value = after->Some_0;
        let k = choose|k: int|
            {
                &&& 0 <= k < rest.len()
                &&& (#[trigger] rest[k]).name == shape.names()[i]
                &&& value_stands(json, rest[k].start, shape.kinds()[i], value, rest[k].end)
                &&& forall|other: int|
                    0 <= other < rest.len() && (#[trigger] rest[other]).name == shape.names()[i]
                        ==> other == k
            };
        assert(members[k + 1] == rest[k]);
        assert forall|other: int|
            0 <= other < members.len() && (#[trigger] members[other]).name
                == shape.names()[i] implies other == k + 1 by {
            if other > 0 {
                assert(rest[other - 1].name == shape.names()[i]);
            }
        }
    }
}

/// Whether none of `members` is called as the field `i` is.
pub open spec fn no_member_holds(shape: Shape, members: Seq<MemberSpan>, i: int) -> bool {
    forall|k: int| 0 <= k < members.len() ==> (#[trigger] members[k]).name != shape.names()[i]
}

/// What one member less in front means for the field `i`.
proof fn lemma_one_member_less(
    json: Seq<u8>,
    shape: Shape,
    members: Seq<MemberSpan>,
    i: int,
    value: ValueView,
)
    requires
        members.len() > 0,
    ensures
        no_member_holds(shape, members, i) ==> members[0].name != shape.names()[i]
            && no_member_holds(shape, members.skip(1), i),
        one_member_holds(json, shape, members, i, value) && members[0].name != shape.names()[i]
            ==> one_member_holds(json, shape, members.skip(1), i, value),
        one_member_holds(json, shape, members, i, value) && members[0].name == shape.names()[i]
            ==> no_member_holds(shape, members.skip(1), i) && value_stands(
            json,
            members[0].start,
            shape.kinds()[i],
            value,
            members[0].end,
        ),
{
    let rest = members.skip(1);
    assert forall|k: int| 0 <= k < rest.len() implies #[trigger] rest[k] == members[k + 1] by {}
    if one_member_holds(json, shape, members, i, value) {
        let k = choose|k: int|
            {
                &&& 0 <= k < members.len()
                &&& (#[trigger] members[k]).name == shape.names()[i]
                &&& value_stands(json, members[k].start, shape.kinds()[i], value, members[k].end)
                &&& forall|other: int|
                    0 <= other < members.len() && (#[trigger] members[other]).name
                        == shape.names()[i] ==> other == k
            };
        if members[0].name == shape.names()[i] {
            assert(k == 0);
            assert forall|j: int| 0 <= j < rest.len() implies (#[trigger] rest[j]).name
                != shape.names()[i] by {
                assert(rest[j] == members[j + 1]);
            }
        } else {
            assert(k > 0);
            assert(rest[k - 1] == members[k]);
            assert forall|other: int|
                0 <= other < rest.len() && (#[trigger] rest[other]).name
                    == shape.names()[i] implies other == k - 1 by {
                assert(members[other + 1].name == shape.names()[i]);
            }
        }
    }
    if no_member_holds(shape, members, i) {
        assert(members[0].name != shape.names()[i]);
        assert forall|j: int| 0 <= j < rest.len() implies (#[trigger] rest[j]).name
            != shape.names()[i] by {
            assert(rest[j] == members[j + 1]);
        }
    }
}

/// A member that stands in the text is found there.
proof fn lemma_standing_member_is_found(
    json: Seq<u8>,
    open: int,
    at: int,
    shape: Shape,
    first: bool,
    members: Seq<MemberSpan>,
    close: int,
) -> (name_end: int)
    requires
        0 <= at <= json.len(),
        members.len() > 0,
        members_stand(json, at, first, shape, members, close),
    ensures
        next_name(json, open, at, first) == Ok::<_, Seq<char>>(Some((members[0].name, name_end))),
        member_value(json, open, name_end) == Ok::<_, Seq<char>>(members[0].start),
        0 <= members[0].start <= json.len(),
        at < members[0].end <= json.len(),
{
    let member = members[0];
    law_space_ends_at_the_first_other_byte(json, at);
    law_space_ends_at_the_first_other_byte(json, member.at);
    let name_end = member.at + json_value_end(json.skip(member.at));
    law_space_ends_at_the_first_other_byte(json, name_end);
    assert(member_stands(json, shape, member));
    assert(text_at(json, member.at) == Ok::<_, Seq<char>>((member.name, name_end)));
    name_end
}

/// An object whose members stand in the text is read.
proof fn lemma_standing_members_are_read(
    json: Seq<u8>,
    open: int,
    at: int,
    shape: Shape,
    first: bool,
    fields: Seq<Option<ValueView>>,
    members: Seq<MemberSpan>,
    close: int,
    values: Seq<ValueView>,
)
    requires
        0 <= at <= json.len(),
        fields.len() == shape.names().len(),
        values.len() == fields.len(),
        members_stand(json, at, first, shape, members, close),
        forall|i: int|
            0 <= i < fields.len() ==> match #[trigger] fields[i] {
                Some(value) => value == values[i] && no_member_holds(shape, members, i),
                None => one_member_holds(json, shape, members, i, values[i]),
            },
    ensures
        members_from(json, open, at, shape, first, fields) == Ok::<_, Seq<char>>(
            (Seq::new(values.len(), |i: int| Some(values[i])), close + 1),
        ),
    decreases members.len(),
{
    let all = Seq::new(values.len(), |i: int| Some(values[i]));
    wire::lemma_shape(shape);
    if members.len() == 0 {
        law_space_ends_at_the_first_other_byte(json, at);
        assert(fields =~= all) by {
            assert forall|i: int| 0 <= i < fields.len() implies #[trigger] fields[i]
                == all[i] by {}
        }
    } else {
        let member = members[0];
        let rest = members.skip(1);
        let name_end = lemma_standing_member_is_found(
            json,
            open,
            at,
            shape,
            first,
            members,
            close,
        );
        assert(member_stands(json, shape, member));
        lemma_field_found(shape, member.name);
        match field_called(shape.names(), member.name, 0) {
            Some(i) => {
                lemma_one_member_less(json, shape, members, i, values[i]);
                assert(fields[i] is None);
                law_a_value_is_read_as_it_stands(
                    json,
                    member.start,
                    shape.kinds()[i],
                    values[i],
                    member.end,
                );
                let filled = fields.update(i, Some(values[i]));
                assert forall|j: int| 0 <= j < filled.len() implies match #[trigger] filled[j] {
                    Some(value) => value == values[j] && no_member_holds(shape, rest, j),
                    None => one_member_holds(json, shape, rest, j, values[j]),
                } by {
                    lemma_one_member_less(json, shape, members, j, values[j]);
                    assert(fields[j] == fields[j]);
                    if j != i {
                        assert(shape.names()[j] != member.name);
                    }
                }
                lemma_standing_members_are_read(
                    json,
                    open,
                    member.end,
                    shape,
                    false,
                    filled,
                    rest,
                    close,
                    values,
                );
            },
            None => {
                assert forall|j: int| 0 <= j < fields.len() implies match #[trigger] fields[j] {
                    Some(value) => value == values[j] && no_member_holds(shape, rest, j),
                    None => one_member_holds(json, shape, rest, j, values[j]),
                } by {
                    lemma_one_member_less(json, shape, members, j, values[j]);
                    assert(shape.names().contains(shape.names()[j]));
                }
                lemma_standing_members_are_read(
                    json,
                    open,
                    member.end,
                    shape,
                    false,
                    fields,
                    rest,
                    close,
                    values,
                );
            },
        }
    }
}

/// Where a value starts and ends.
pub struct Span {
    pub start: int,
    pub end: int,
}

/// Whether the values from the field `i` on stand at `spans`, one after the other, with
/// commas between them, and the array ends with the mark at `close`.
pub open spec fn positions_stand(
    json: Seq<u8>,
    at: int,
    shape: Shape,
    i: int,
    values: Seq<ValueView>,
    spans: Seq<Span>,
    close: int,
) -> bool
    decreases shape.kinds().len() - i,
{
    let next = space_end(json, at);
    if i >= shape.kinds().len() {
        close == next && close < json.len() && json[close] == 0x5d
    } else {
        &&& next < json.len()
        &&& if i == 0 {
            spans[i].start == next
        } else {
            json[next] == 0x2c && spans[i].start == space_end(json, next + 1)
        }
        &&& spans[i].start < json.len()
        &&& json[spans[i].start] != 0x5d
        &&& value_stands(json, spans[i].start, shape.kinds()[i], values[i], spans[i].end)
        &&& 0 <= spans[i].end <= json.len()
        &&& positions_stand(json, spans[i].end, shape, i + 1, values, spans, close)
    }
}

/// A value that stands in the text ends in it.
proof fn lemma_value_ends_within(
    json: Seq<u8>,
    start: int,
    kind: Kind,
    value: ValueView,
    end: int,
)
    requires
        0 <= start <= json.len(),
        value_stands(json, start, kind, value, end),
    ensures
        start < end <= json.len(),
{
    law_space_ends_at_the_first_other_byte(json, start);
    if let Kind::Records(element) = kind {
        if let ValueView::Places(places) = value {
            lemma_list_ends_within(json, space_end(json, start) + 1, true, element, places, end - 1);
        }
    }
}

/// A list that stands in the text ends in it.
proof fn lemma_list_ends_within(
    json: Seq<u8>,
    at: int,
    first: bool,
    element: Shape,
    places: Seq<int>,
    close: int,
)
    requires
        0 <= at <= json.len(),
        elements_stand(json, at, first, element, places, close),
    ensures
        at <= close < json.len(),
    decreases places.len(),
{
    law_space_ends_at_the_first_other_byte(json, at);
    if places.len() > 0 {
        let end = record_at(json, places[0], element)->Ok_0.1;
        lemma_list_ends_within(json, end, false, element, places.skip(1), close);
    }
}

/// A record that is read from an array stands there, value by value.
proof fn lemma_read_positions_stand(
    json: Seq<u8>,
    open: int,
    at: int,
    shape: Shape,
    fields: Seq<Option<ValueView>>,
    done: Seq<Span>,
) -> (spans: Seq<Span>)
    requires
        0 <= at <= json.len(),
        fields.len() == done.len(),
        fields.len() <= shape.kinds().len(),
    ensures
        positions_from(json, open, at, shape, fields) matches Ok((after, end)) ==> {
            &&& after.len() == shape.kinds().len()
            &&& spans.len() == after.len()
            &&& forall|i: int| 0 <= i < fields.len() ==> #[trigger] after[i] == fields[i]
            &&& forall|i: int| 0 <= i < done.len() ==> #[trigger] spans[i] == done[i]
            &&& forall|i: int| fields.len() <= i < after.len() ==> #[trigger] after[i] is Some
            &&& positions_stand(
                json,
                at,
                shape,
                fields.len() as int,
                Seq::new(after.len(), |i: int| after[i]->Some_0),
                spans,
                end - 1,
            )
        },
    decreases shape.kinds().len() - fields.len(),
{
    law_space_ends_at_the_first_other_byte(json, at);
    let next = space_end(json, at);
    if next < json.len() {
        law_space_ends_at_the_first_other_byte(json, next + 1);
    }
    let n = fields.len() as int;
    if positions_from(json, open, at, shape, fields) is Err || n >= shape.kinds().len() {
        done
    } else {
        let start = next_element(json, open, at, n == 0)->Ok_0->Some_0;
        let (value, end) = value_at(json, start, shape.kinds()[n])->Ok_0;
        law_a_value_is_read_as_it_stands(json, start, shape.kinds()[n], value, end);
        lemma_value_ends_within(json, start, shape.kinds()[n], value, end);
        let span = Span { start, end };
        let more = fields.push(Some(value));
        let spans = lemma_read_positions_stand(json, open, end, shape, more, done.push(span));
        let after = positions_from(json, open, at, shape, fields)->Ok_0.0;
        assert(after[n] == more[n]);
        assert(spans[n] == done.push(span)[n]);
        assert forall|i: int| 0 <= i < n implies #[trigger] after[i] == fields[i] by {
            assert(after[i] == more[i]);
        }
        assert forall|i: int| 0 <= i < n implies #[trigger] spans[i] == done[i] by {
            assert(spans[i] == done.push(span)[i]);
        }
        spans
    }
}

/// A record whose values stand in an array is read.
proof fn lemma_standing_positions_are_read(
    json: Seq<u8>,
    open: int,
    at: int,
    shape: Shape,
    fields: Seq<Option<ValueView>>,
    values: Seq<ValueView>,
    spans: Seq<Span>,
    close: int,
)
    requires
        0 <= at <= json.len(),
        values.len() == shape.kinds().len(),
        fields.len() <= values.len(),
        forall|i: int| 0 <= i < fields.len() ==> #[trigger] fields[i] == Some(values[i]),
        positions_stand(json, at, shape, fields.len() as int, values, spans, close),
    ensures
        positions_from(json, open, at, shape, fields) == Ok::<_, Seq<char>>(
            (Seq::new(values.len(), |i: int| Some(values[i])), close + 1),
        ),
    decreases values.len() - fields.len(),
{
    let all = Seq::new(values.len(), |i: int| Some(values[i]));
    law_space_ends_at_the_first_other_byte(json, at);
    let n = fields.len() as int;
    if n == values.len() {
        assert(fields =~= all);
    } else {
        let next = space_end(json, at);
        law_space_ends_at_the_first_other_byte(json, next + 1);
        let span = spans[n];
        law_a_value_is_read_as_it_stands(
            json,
            span.start,
            shape.kinds()[n],
            values[n],
            span.end,
        );
        lemma_standing_positions_are_read(
            json,
            open,
            span.end,
            shape,
            fields.push(Some(values[n])),
            values,
            spans,
            close,
        );
    }
}

/// Whether `json` has, from `at` to `end`, a record with `values` for its fields: an
/// object with exactly one member of each field's name, at which the field's value
/// stands, or an array of the values in the order of the fields.
pub open spec fn record_stands(
    json: Seq<u8>,
    at: int,
    shape: Shape,
    values: Seq<ValueView>,
    end: int,
) -> bool {
    let open = space_end(json, at);
    &&& 0 <= open < json.len()
    &&& values.len() == shape.names().len()
    &&& {
        ||| json[open] == 0x7b && exists|members: Seq<MemberSpan>|
            {
                &&& #[trigger] members_stand(json, open + 1, true, shape, members, end - 1)
                &&& forall|i: int|
                    0 <= i < values.len() ==> one_member_holds(
                        json,
                        shape,
                        members,
                        i,
                        #[trigger] values[i],
                    )
            }
        ||| json[open] == 0x5b && exists|spans: Seq<Span>|
            {
                &&& spans.len() == values.len()
                &&& #[trigger] positions_stand(json, open + 1, shape, 0, values, spans, end - 1)
            }
    }
}

/// A record is read if and only if it stands there, and the fields hold the values that
/// stand there.
pub proof fn law_a_record_is_read_as_it_stands(
    json: Seq<u8>,
    at: int,
    shape: Shape,
    values: Seq<ValueView>,
    end: int,
)
    requires
        0 <= at <= json.len(),
    ensures
        record_at(json, at, shape) == Ok::<_, Seq<char>>(
            (Seq::new(values.len(), |i: int| Some(values[i])), end),
        ) <==> record_stands(json, at, shape, values, end),
{
    lemma_read_record_stands(json, at, shape, values, end);
    lemma_standing_record_is_read(json, at, shape, values, end);
}

/// A record that is read stands there.
proof fn lemma_read_record_stands(
    json: Seq<u8>,
    at: int,
    shape: Shape,
    values: Seq<ValueView>,
    end: int,
)
    requires
        0 <= at <= json.len(),
    ensures
        record_at(json, at, shape) == Ok::<_, Seq<char>>(
            (Seq::new(values.len(), |i: int| Some(values[i])), end),
        ) ==> record_stands(json, at, shape, values, end),
{
    let all = Seq::new(values.len(), |i: int| Some(values[i]));
    wire::lemma_shape(shape);
    law_space_ends_at_the_first_other_byte(json, at);
    let open = space_end(json, at);
    if record_at(json, at, shape) == Ok::<_, Seq<char>>((all, end)) {
        law_a_record_has_all_its_fields(json, at, shape);
        assert(all.len() == values.len());
        if json[open] == 0x7b {
            let none: Seq<Option<ValueView>> = Seq::new(shape.names().len(), |i: int| None);
            let members = lemma_read_members_stand(json, open, open + 1, shape, true, none);
            assert forall|i: int| 0 <= i < values.len() implies one_member_holds(
                json,
                shape,
                members,
                i,
                #[trigger] values[i],
            ) by {
                assert(none[i] is None);
                assert(all[i] == Some(values[i]));
            }
            assert(members_stand(json, open + 1, true, shape, members, end - 1));
        } else {
            let spans = lemma_read_positions_stand(
                json,
                open,
                open + 1,
                shape,
                Seq::empty(),
                Seq::empty(),
            );
            assert(Seq::new(all.len(), |i: int| all[i]->Some_0) =~= values);
            assert(positions_stand(json, open + 1, shape, 0, values, spans, end - 1));
        }
    }
}

/// A record that stands in the text is read.
proof fn lemma_standing_record_is_read(
    json: Seq<u8>,
    at: int,
    shape: Shape,
    values: Seq<ValueView>,
    end: int,
)
    requires
        0 <= at <= json.len(),
    ensures
        record_stands(json, at, shape, values, end) ==> record_at(json, at, shape) == Ok::<
            _,
            Seq<char>,
        >((Seq::new(values.len(), |i: int| Some(values[i])), end)),
{
    let all = Seq::new(values.len(), |i: int| Some(values[i]));
    wire::lemma_shape(shape);
    law_space_ends_at_the_first_other_byte(json, at);
    let open = space_end(json, at);
    if record_stands(json, at, shape, values, end) {
        if json[open] == 0x7b {
            let members = choose|members: Seq<MemberSpan>|
                {
                    &&& #[trigger] members_stand(json, open + 1, true, shape, members, end - 1)
                    &&& forall|i: int|
                        0 <= i < values.len() ==> one_member_holds(
                            json,
                            shape,
                            members,
                            i,
                            #[trigger] values[i],
                        )
                };
            let none: Seq<Option<ValueView>> = Seq::new(shape.names().len(), |i: int| None);
            assert forall|i: int| 0 <= i < none.len() implies match #[trigger] none[i] {
                Some(value) => value == values[i] && no_member_holds(shape, members, i),
                None => one_member_holds(json, shape, members, i, values[i]),
            } by {
                assert(values[i] == values[i]);
            }
            lemma_standing_members_are_read(
                json,
                open,
                open + 1,
                shape,
                true,
                none,
                members,
                end - 1,
                values,
            );
            lemma_all_present(all, 0);
        } else {
            let spans = choose|spans: Seq<Span>|
                {
                    &&& spans.len() == values.len()
                    &&& #[trigger] positions_stand(
                        json,
                        open + 1,
                        shape,
                        0,
                        values,
                        spans,
                        end - 1,
                    )
                };
            lemma_standing_positions_are_read(
                json,
                open,
                open + 1,
                shape,
                Seq::empty(),
                values,
                spans,
                end - 1,
            );
        }
    }
}

/// Where each field has a value, none is missing.
proof fn lemma_all_present(fields: Seq<Option<ValueView>>, from: int)
    requires
        0 <= from,
        forall|i: int| 0 <= i < fields.len() ==> #[trigger] fields[i] is Some,
    ensures
        first_missing(fields, from) is None,
    decreases fields.len() - from,
{
    if from < fields.len() {
        lemma_all_present(fields, from + 1);
    }
}

/// Whether `json` has, from `at` on, a record with `values` for its fields.
#[verifier::opaque]
pub open spec fn record_holds(
    json: Seq<u8>,
    at: int,
    shape: Shape,
    values: Seq<ValueView>,
) -> bool {
    exists|end: int| #[trigger] record_stands(json, at, shape, values, end)
}

/// Whether a whole text is one record with `values` for its fields.
pub open spec fn body_holds(json: Seq<u8>, shape: Shape, values: Seq<ValueView>) -> bool {
    json_flaw(json) is None && record_holds(json, 0, shape, values)
}

/// A text is read as a record if and only if it is one and nothing else.
pub proof fn law_a_body_is_read_as_it_stands(
    json: Seq<u8>,
    shape: Shape,
    values: Seq<ValueView>,
)
    ensures
        record_in(json, shape) == Ok::<_, Seq<char>>(
            Seq::new(values.len(), |i: int| Some(values[i])),
        ) <==> body_holds(json, shape, values),
{
    reveal(record_holds);
    let all = Seq::new(values.len(), |i: int| Some(values[i]));
    if let Ok((fields, end)) = record_at(json, 0, shape) {
        law_a_record_is_read_as_it_stands(json, 0, shape, values, end);
    }
    if body_holds(json, shape, values) {
        let end = choose|end: int| #[trigger] record_stands(json, 0, shape, values, end);
        law_a_record_is_read_as_it_stands(json, 0, shape, values, end);
    }
}

/// A text that is read as a record holds some values for its fields.
pub proof fn law_a_body_that_is_read_holds_values(json: Seq<u8>, shape: Shape) -> (values: Seq<
    ValueView,
>)
    ensures
        record_in(json, shape) matches Ok(fields) ==> {
            &&& values.len() == fields.len()
            &&& forall|i: int| 0 <= i < fields.len() ==> #[trigger] fields[i] == Some(values[i])
            &&& body_holds(json, shape, values)
        },
{
    let fields = record_in(json, shape)->Ok_0;
    let values = Seq::new(fields.len(), |i: int| fields[i]->Some_0);
    if record_in(json, shape) is Ok {
        law_a_record_has_all_its_fields(json, 0, shape);
        assert(Seq::new(values.len(), |i: int| Some(values[i])) =~= fields);
        law_a_body_is_read_as_it_stands(json, shape, values);
    }
    values
}

/// Whether a text has a member called `name` with the string `value`: the strings that
/// `serde_json` reads before and after a colon.
pub open spec fn text_member(json: Seq<u8>, name: Seq<char>, value: Seq<char>) -> bool {
    exists|at: int, start: int|
        #![trigger json.skip(at), json.skip(start)]
        {
            &&& 0 <= at < start <= json.len()
            &&& json_string(json.skip(at)) == Ok::<_, Seq<char>>(name)
            &&& start == space_end(json, at + json_value_end(json.skip(at))) + 1
            &&& json[start - 1] == 0x3a
            &&& json_string(json.skip(start)) == Ok::<_, Seq<char>>(value)
        }
}

/// Whether a text has a member called `name` with the integer `value`.
pub open spec fn number_member(json: Seq<u8>, name: Seq<char>, value: i64) -> bool {
    exists|at: int, start: int|
        #![trigger json.skip(at), json.skip(start)]
        {
            &&& 0 <= at < start <= json.len()
            &&& json_string(json.skip(at)) == Ok::<_, Seq<char>>(name)
            &&& start == space_end(json, at + json_value_end(json.skip(at))) + 1
            &&& json[start - 1] == 0x3a
            &&& json_integer(json.skip(start)) == Ok::<_, Seq<char>>(value)
        }
}

/// Each of the members that stand in a text stands there.
proof fn lemma_each_member_stands(
    json: Seq<u8>,
    at: int,
    first: bool,
    shape: Shape,
    members: Seq<MemberSpan>,
    close: int,
    k: int,
)
    requires
        members_stand(json, at, first, shape, members, close),
        0 <= k < members.len(),
    ensures
        member_stands(json, shape, members[k]),
    decreases members.len(),
{
    if k > 0 {
        lemma_each_member_stands(
            json,
            members[0].end,
            false,
            shape,
            members.skip(1),
            close,
            k - 1,
        );
    }
}

/// In a record that is an object, the value of each field stands, whole, at a member of
/// its name.
pub proof fn law_each_value_has_its_member(
    json: Seq<u8>,
    at: int,
    shape: Shape,
    values: Seq<ValueView>,
)
    requires
        0 <= at <= json.len(),
        record_holds(json, at, shape, values),
        json[space_end(json, at)] == 0x7b,
    ensures
        values.len() == shape.names().len(),
        forall|i: int|
            0 <= i < values.len() ==> match #[trigger] values[i] {
                ValueView::Text(text) => text_member(json, shape.names()[i], text),
                ValueView::Number(number) => number_member(json, shape.names()[i], number),
                ValueView::Places(_) => true,
            },
{
    reveal(record_holds);
    let end = choose|end: int| #[trigger] record_stands(json, at, shape, values, end);
    let open = space_end(json, at);
    let members = choose|members: Seq<MemberSpan>|
        {
            &&& #[trigger] members_stand(json, open + 1, true, shape, members, end - 1)
            &&& forall|i: int|
                0 <= i < values.len() ==> one_member_holds(
                    json,
                    shape,
                    members,
                    i,
                    #[trigger] values[i],
                )
        };
    assert forall|i: int| 0 <= i < values.len() implies match #[trigger] values[i] {
        ValueView::Text(text) => text_member(json, shape.names()[i], text),
        ValueView::Number(number) => number_member(json, shape.names()[i], number),
        ValueView::Places(_) => true,
    } by {
        let value = values[i];
        assert(one_member_holds(json, shape, members, i, value));
        let k = choose|k: int|
            {
                &&& 0 <= k < members.len()
                &&& (#[trigger] members[k]).name == shape.names()[i]
                &&& value_stands(json, members[k].start, shape.kinds()[i], value, members[k].end)
                &&& forall|other: int|
                    0 <= other < members.len() && (#[trigger] members[other]).name
                        == shape.names()[i] ==> other == k
            };
        lemma_each_member_stands(json, open + 1, true, shape, members, end - 1, k);
        let member = members[k];
        let name_end = member.at + json_value_end(json.skip(member.at));
        law_space_ends_at_the_first_other_byte(json, member.at);
        law_space_ends_at_the_first_other_byte(json, name_end);
        assert(member.at < member.start);
        assert(json.skip(member.at) == json.skip(member.at));
        assert(json.skip(member.start) == json.skip(member.start));
    }
}

/// An object of one number carries its name and its number, and nothing else: the text
/// between the colon and the closing mark reads back as the number.
pub proof fn law_an_object_of_one_number(name: &str, value: i64, json: Vec<u8>)
    requires
        call_ensures(write_integer_object, (name, value), json),
    ensures
        exists|number: Seq<char>|
            {
                &&& text::signed_number(number) == Some(value as int)
                &&& vstd::utf8::decode_utf8(json@) == seq!['{', '"'] + name@ + seq!['"', ':']
                    + #[trigger] (number + seq!['}'])
            },
{
    reveal_strlit("{\"");
    reveal_strlit("\":");
    reveal_strlit("}");
    let number = text::decimal(value as int);
    text::law_decimal_reads_back(value as int);
    vstd::utf8::encode_utf8_decode_utf8(integer_object(name@, value as int));
    assert(integer_object(name@, value as int) =~= seq!['{', '"'] + name@ + seq!['"', ':'] + (
    number + seq!['}']));
}

/// Whether `members` stand one after the other from `at` on, with commas between them,
/// and the last of them ends at `upto`.
pub open spec fn members_lead(
    json: Seq<u8>,
    at: int,
    first: bool,
    shape: Shape,
    members: Seq<MemberSpan>,
    upto: int,
) -> bool
    decreases members.len(),
{
    if members.len() == 0 {
        upto == at
    } else {
        let next = space_end(json, at);
        &&& next < json.len()
        &&& if first {
            members[0].at == next
        } else {
            json[next] == 0x2c && members[0].at == space_end(json, next + 1)
        }
        &&& member_stands(json, shape, members[0])
        &&& at < members[0].end
        &&& members_lead(json, members[0].end, false, shape, members.skip(1), upto)
    }
}

/// Whether `held` are the values of the fields that `members` hold: each that is held is
/// held by one member, and for each that is not there is none.
pub open spec fn members_hold(
    json: Seq<u8>,
    shape: Shape,
    members: Seq<MemberSpan>,
    held: Seq<Option<ValueView>>,
) -> bool {
    &&& held.len() == shape.names().len()
    &&& forall|i: int|
        0 <= i < held.len() ==> match #[trigger] held[i] {
            Some(value) => one_member_holds(json, shape, members, i, value),
            None => no_member_holds(shape, members, i),
        }
}

/// What members that stand in the text leave to be read, and the fields that they fill.
proof fn lemma_leading_members(
    json: Seq<u8>,
    open: int,
    at: int,
    shape: Shape,
    first: bool,
    fields: Seq<Option<ValueView>>,
    members: Seq<MemberSpan>,
    upto: int,
    held: Seq<Option<ValueView>>,
)
    requires
        0 <= at <= json.len(),
        fields.len() == shape.names().len(),
        held.len() == fields.len(),
        members_lead(json, at, first, shape, members, upto),
        forall|i: int|
            0 <= i < fields.len() ==> match #[trigger] fields[i] {
                Some(value) => held[i] == Some(value) && no_member_holds(shape, members, i),
                None => match held[i] {
                    Some(value) => one_member_holds(json, shape, members, i, value),
                    None => no_member_holds(shape, members, i),
                },
            },
    ensures
        at <= upto <= json.len(),
        members_from(json, open, at, shape, first, fields) == members_from(
            json,
            open,
            upto,
            shape,
            first && members.len() == 0,
            held,
        ),
    decreases members.len(),
{
    wire::lemma_shape(shape);
    if members.len() == 0 {
        assert(fields =~= held) by {
            assert forall|i: int| 0 <= i < fields.len() implies #[trigger] fields[i] == held[i] by {
                if let Some(value) = held[i] {
                    if fields[i] is None {
                        assert(one_member_holds(json, shape, members, i, value));
                    }
                }
            }
        }
    } else {
        let member = members[0];
        let rest = members.skip(1);
        law_space_ends_at_the_first_other_byte(json, at);
        law_space_ends_at_the_first_other_byte(json, member.at);
        let name_end = member.at + json_value_end(json.skip(member.at));
        law_space_ends_at_the_first_other_byte(json, name_end);
        assert(member_stands(json, shape, member));
        assert(text_at(json, member.at) == Ok::<_, Seq<char>>((member.name, name_end)));
        assert(next_name(json, open, at, first) == Ok::<_, Seq<char>>(
            Some((member.name, name_end)),
        ));
        assert(member_value(json, open, name_end) == Ok::<_, Seq<char>>(member.start));
        lemma_field_found(shape, member.name);
        match field_called(shape.names(), member.name, 0) {
            Some(i) => {
                assert(fields[i] == fields[i]);
                if fields[i] is Some || held[i] is None {
                    assert(members[0].name == shape.names()[i]);
                    assert(false);
                }
                let value = held[i]->Some_0;
                lemma_one_member_less(json, shape, members, i, value);
                law_a_value_is_read_as_it_stands(
                    json,
                    member.start,
                    shape.kinds()[i],
                    value,
                    member.end,
                );
                let filled = fields.update(i, Some(value));
                assert forall|j: int| 0 <= j < filled.len() implies match #[trigger] filled[j] {
                    Some(value) => held[j] == Some(value) && no_member_holds(shape, rest, j),
                    None => match held[j] {
                        Some(value) => one_member_holds(json, shape, rest, j, value),
                        None => no_member_holds(shape, rest, j),
                    },
                } by {
                    let other = if held[j] is Some {
                        held[j]->Some_0
                    } else {
                        value
                    };
                    lemma_one_member_less(json, shape, members, j, other);
                    assert(fields[j] == fields[j]);
                    if j != i {
                        assert(shape.names()[j] != member.name);
                    }
                }
                lemma_leading_members(
                    json,
                    open,
                    member.end,
                    shape,
                    false,
                    filled,
                    rest,
                    upto,
                    held,
                );
            },
            None => {
                assert forall|j: int| 0 <= j < fields.len() implies match #[trigger] fields[j] {
                    Some(value) => held[j] == Some(value) && no_member_holds(shape, rest, j),
                    None => match held[j] {
                        Some(value) => one_member_holds(json, shape, rest, j, value),
                        None => no_member_holds(shape, rest, j),
                    },
                } by {
                    let other = if held[j] is Some {
                        held[j]->Some_0
                    } else {
                        ValueView::Number(0)
                    };
                    lemma_one_member_less(json, shape, members, j, other);
                    assert(shape.names().contains(shape.names()[j]));
                }
                lemma_leading_members(
                    json,
                    open,
                    member.end,
                    shape,
                    false,
                    fields,
                    rest,
                    upto,
                    held,
                );
            },
        }
    }
}

/// What is left of an object after members that stand in it.
proof fn lemma_object_after(
    json: Seq<u8>,
    at: int,
    shape: Shape,
    members: Seq<MemberSpan>,
    upto: int,
    held: Seq<Option<ValueView>>,
)
    requires
        0 <= at <= json.len(),
        space_end(json, at) < json.len(),
        json[space_end(json, at)] == 0x7b,
        members_lead(json, space_end(json, at) + 1, true, shape, members, upto),
        members_hold(json, shape, members, held),
    ensures
        ({
            let open = space_end(json, at);
            let none: Seq<Option<ValueView>> = Seq::new(shape.names().len(), |i: int| None);
            &&& at <= open < upto <= json.len()
            &&& members_from(json, open, open + 1, shape, true, none) == members_from(
                json,
                open,
                upto,
                shape,
                members.len() == 0,
                held,
            )
        }),
{
    let open = space_end(json, at);
    let none: Seq<Option<ValueView>> = Seq::new(shape.names().len(), |i: int| None);
    law_space_ends_at_the_first_other_byte(json, at);
    assert forall|i: int| 0 <= i < none.len() implies match #[trigger] none[i] {
        Some(value) => held[i] == Some(value) && no_member_holds(shape, members, i),
        None => match held[i] {
            Some(value) => one_member_holds(json, shape, members, i, value),
            None => no_member_holds(shape, members, i),
        },
    } by {
        assert(held[i] == held[i]);
    }
    lemma_leading_members(json, open, open + 1, shape, true, none, members, upto, held);
}

/// The first of several that has no value is found.
proof fn lemma_first_missing(fields: Seq<Option<ValueView>>, from: int, i: int)
    requires
        0 <= from <= i < fields.len(),
        fields[i] is None,
        forall|k: int| from <= k < i ==> #[trigger] fields[k] is Some,
    ensures
        first_missing(fields, from) == Some(i),
    decreases i - from,
{
    if from < i {
        assert(fields[from] is Some);
        lemma_first_missing(fields, from + 1, i);
    }
}

/// An object that ends without a member of some field's name is refused, and the message
/// names the first such field, and the place after the closing mark.
pub proof fn law_a_missing_field_is_named(
    json: &[u8],
    shape: Shape,
    members: Seq<MemberSpan>,
    upto: int,
    held: Seq<Option<ValueView>>,
    i: int,
    read: Result<Vec<Option<Value>>, String>,
)
    requires
        call_ensures(read_record, (json, shape), read),
        space_end(json@, 0) < json@.len(),
        json@[space_end(json@, 0)] == 0x7b,
        members_lead(json@, space_end(json@, 0) + 1, true, shape, members, upto),
        space_end(json@, upto) < json@.len(),
        json@[space_end(json@, upto)] == 0x7d,
        members_hold(json@, shape, members, held),
        0 <= i < held.len(),
        held[i] is None,
        forall|k: int| 0 <= k < i ==> #[trigger] held[k] is Some,
    ensures
        read matches Err(told) && told@ == "missing field `"@ + shape.names()[i] + "`"@ + place(
            json@,
            space_end(json@, upto) + 1,
        ),
{
    lemma_object_after(json@, 0, shape, members, upto, held);
    lemma_first_missing(held, 0, i);
}

/// An object with a second member of a field's name is refused, and the message names the
/// field, and the place where that name ends, with the white space after it, and the
/// closing mark if that comes next.
pub proof fn law_a_repeated_field_is_named(
    json: &[u8],
    shape: Shape,
    members: Seq<MemberSpan>,
    upto: int,
    held: Seq<Option<ValueView>>,
    i: int,
    name: int,
    name_end: int,
    read: Result<Vec<Option<Value>>, String>,
)
    requires
        call_ensures(read_record, (json, shape), read),
        space_end(json@, 0) < json@.len(),
        json@[space_end(json@, 0)] == 0x7b,
        members_lead(json@, space_end(json@, 0) + 1, true, shape, members, upto),
        members_hold(json@, shape, members, held),
        members.len() > 0,
        space_end(json@, upto) < json@.len(),
        json@[space_end(json@, upto)] == 0x2c,
        name == space_end(json@, space_end(json@, upto) + 1),
        name < json@.len(),
        json@[name] == 0x22,
        spans(json@, name, name_end),
        0 <= i < held.len(),
        held[i] is Some,
        json_string(json@.skip(name)) == Ok::<_, Seq<char>>(shape.names()[i]),
    ensures
        ({
            let next = space_end(json@, name_end);
            let past = if next < json@.len() && json@[next] == 0x7d {
                next + 1
            } else {
                next
            };
            read matches Err(told) && told@ == "duplicate field `"@ + shape.names()[i] + "`"@
                + place(json@, past)
        }),
{
    lemma_object_after(json@, 0, shape, members, upto, held);
    law_space_ends_at_the_first_other_byte(json@, upto);
    assert(text_at(json@, name) == Ok::<_, Seq<char>>((shape.names()[i], name_end)));
    lemma_field_found(shape, shape.names()[i]);
    assert(field_called(shape.names(), shape.names()[i], 0) == Some(i));
}

/// What is read next of an object is the value of the field that is named next.
proof fn lemma_next_member_is_wrong(
    json: Seq<u8>,
    open: int,
    upto: int,
    shape: Shape,
    first: bool,
    held: Seq<Option<ValueView>>,
    i: int,
    name_end: int,
)
    requires
        next_name(json, open, upto, first) == Ok::<_, Seq<char>>(
            Some((shape.names()[i], name_end)),
        ),
        space_end(json, name_end) < json.len(),
        json[space_end(json, name_end)] == 0x3a,
        0 <= i < held.len(),
        held.len() == shape.names().len(),
        held[i] is None,
    ensures
        value_at(json, space_end(json, name_end) + 1, shape.kinds()[i]) matches Err(message)
            ==> members_from(json, open, upto, shape, first, held) == Err::<
            (Seq<Option<ValueView>>, int),
            _,
        >(message),
{
    lemma_field_found(shape, shape.names()[i]);
    assert(field_called(shape.names(), shape.names()[i], 0) == Some(i));
}

/// The first value of an object that is not of its field's kind is what is told of it:
/// with what `serde_json` says of the text there.
pub proof fn law_a_wrong_value_is_told(
    json: &[u8],
    shape: Shape,
    members: Seq<MemberSpan>,
    upto: int,
    held: Seq<Option<ValueView>>,
    i: int,
    name: int,
    name_end: int,
    read: Result<Vec<Option<Value>>, String>,
)
    requires
        call_ensures(read_record, (json, shape), read),
        space_end(json@, 0) < json@.len(),
        json@[space_end(json@, 0)] == 0x7b,
        members_lead(json@, space_end(json@, 0) + 1, true, shape, members, upto),
        members_hold(json@, shape, members, held),
        space_end(json@, upto) < json@.len(),
        if members.len() == 0 {
            name == space_end(json@, upto)
        } else {
            json@[space_end(json@, upto)] == 0x2c && name == space_end(
                json@,
                space_end(json@, upto) + 1,
            )
        },
        name < json@.len(),
        json@[name] == 0x22,
        spans(json@, name, name_end),
        0 <= i < held.len(),
        held[i] is None,
        json_string(json@.skip(name)) == Ok::<_, Seq<char>>(shape.names()[i]),
        space_end(json@, name_end) < json@.len(),
        json@[space_end(json@, name_end)] == 0x3a,
    ensures
        ({
            let start = space_end(json@, name_end) + 1;
            &&& shape.kinds()[i] is Text && json_string(json@.skip(start)) is Err ==> (
            read matches Err(told) && (json_string(blanked(json@, start)) matches Err(said)
                ==> told@ == said))
            &&& shape.kinds()[i] is Number && json_integer(json@.skip(start)) is Err ==> (
            read matches Err(told) && (json_integer(blanked(json@, start)) matches Err(said)
                ==> told@ == said))
        }),
{
    lemma_object_after(json@, 0, shape, members, upto, held);
    let open = space_end(json@, 0);
    let start = space_end(json@, name_end) + 1;
    law_space_ends_at_the_first_other_byte(json@, upto);
    assert(text_at(json@, name) == Ok::<_, Seq<char>>((shape.names()[i], name_end)));
    assert(next_name(json@, open, upto, members.len() == 0) == Ok::<_, Seq<char>>(
        Some((shape.names()[i], name_end)),
    ));
    lemma_next_member_is_wrong(
        json@,
        open,
        upto,
        shape,
        members.len() == 0,
        held,
        i,
        name_end,
    );
    if let Err(message) = value_at(json@, start, shape.kinds()[i]) {
        assert(record_at(json@, 0, shape) == Err::<(Seq<Option<ValueView>>, int), _>(message));
    }
}

/// A text that starts neither with an object nor with an array is refused with what
/// `serde_json` says of it where it asks for a map, in which the record stands in place of
/// the map; and a record with something after it is refused with what `serde_json` says.
pub proof fn law_what_is_no_record_is_told(
    json: &[u8],
    shape: Shape,
    before: Seq<char>,
    after: Seq<char>,
    read: Result<Vec<Option<Value>>, String>,
)
    requires
        call_ensures(read_record, (json, shape), read),
        forall|i: int|
            0 < i <= after.len() ==> #[trigger] ("a map"@ + after).subrange(i, i + 5) != "a map"@,
    ensures
        ({
            let open = space_end(json@, 0);
            (open >= json@.len() || (json@[open] != 0x7b && json@[open] != 0x5b))
                && json_object_flaw(blanked(json@, open)) == Some(before + "a map"@ + after) ==> (
            read matches Err(told) && told@ == before + shape.title() + after)
        }),
        record_at(json@, 0, shape) is Ok ==> (json_flaw(json@) matches Some(said) ==> (
        read matches Err(told) && told@ == said)),
        read is Ok ==> json_flaw(json@) is None,
{
    law_space_ends_at_the_first_other_byte(json@, 0);
    reveal_strlit("a map");
    lemma_last_is_replaced(before, "a map"@, after, shape.title());
}

/// The last of several occurrences is replaced, and the rest stays.
proof fn lemma_last_is_replaced(
    before: Seq<char>,
    a: Seq<char>,
    after: Seq<char>,
    b: Seq<char>,
)
    requires
        a.len() > 0,
        forall|i: int|
            0 < i <= after.len() ==> #[trigger] (a + after).subrange(i, i + a.len()) != a,
    ensures
        last_replaced(before + a + after, a, b) == before + b + after,
    decreases after.len(),
{
    let s = before + a + after;
    if after.len() == 0 {
        assert(s =~= before + a);
        assert(s.skip(s.len() - a.len()) =~= a);
        assert(s.take(s.len() - a.len()) =~= before);
        assert(before + b + after =~= before + b);
    } else {
        let n = after.len() as int;
        assert(s.skip(s.len() - a.len()) =~= (a + after).subrange(n, n + a.len()));
        let shorter = after.drop_last();
        assert(s.drop_last() =~= before + a + shorter);
        assert forall|i: int| 0 < i <= shorter.len() implies #[trigger] (a + shorter).subrange(
            i,
            i + a.len(),
        ) != a by {
            assert((a + shorter).subrange(i, i + a.len()) =~= (a + after).subrange(
                i,
                i + a.len(),
            ));
        }
        lemma_last_is_replaced(before, a, shorter, b);
        assert((before + b + shorter).push(s.last()) =~= before + b + after);
    }
}

/// Whether the values from the field `i` up to the field `n` stand at `spans`, one after
/// the other, with commas between them, and the last of them ends at `upto`.
pub open spec fn positions_lead(
    json: Seq<u8>,
    at: int,
    shape: Shape,
    i: int,
    n: int,
    values: Seq<ValueView>,
    spans: Seq<Span>,
    upto: int,
) -> bool
    decreases n - i,
{
    let next = space_end(json, at);
    if i >= n {
        upto == at
    } else {
        &&& next < json.len()
        &&& if i == 0 {
            spans[i].start == next
        } else {
            json[next] == 0x2c && spans[i].start == space_end(json, next + 1)
        }
        &&& spans[i].start < json.len()
        &&& json[spans[i].start] != 0x5d
        &&& value_stands(json, spans[i].start, shape.kinds()[i], values[i], spans[i].end)
        &&& 0 <= spans[i].end <= json.len()
        &&& positions_lead(json, spans[i].end, shape, i + 1, n, values, spans, upto)
    }
}

/// What values that stand in an array leave to be read.
proof fn lemma_leading_positions(
    json: Seq<u8>,
    open: int,
    at: int,
    shape: Shape,
    fields: Seq<Option<ValueView>>,
    n: int,
    values: Seq<ValueView>,
    spans: Seq<Span>,
    upto: int,
)
    requires
        0 <= at <= json.len(),
        fields.len() <= n <= shape.kinds().len(),
        n <= values.len(),
        forall|i: int| 0 <= i < fields.len() ==> #[trigger] fields[i] == Some(values[i]),
        positions_lead(json, at, shape, fields.len() as int, n, values, spans, upto),
    ensures
        0 <= upto <= json.len(),
        positions_from(json, open, at, shape, fields) == positions_from(
            json,
            open,
            upto,
            shape,
            Seq::new(n as nat, |i: int| Some(values[i])),
        ),
    decreases n - fields.len(),
{
    law_space_ends_at_the_first_other_byte(json, at);
    let k = fields.len() as int;
    if k == n {
        assert(fields =~= Seq::new(n as nat, |i: int| Some(values[i])));
    } else {
        let next = space_end(json, at);
        law_space_ends_at_the_first_other_byte(json, next + 1);
        let span = spans[k];
        law_a_value_is_read_as_it_stands(
            json,
            span.start,
            shape.kinds()[k],
            values[k],
            span.end,
        );
        lemma_leading_positions(
            json,
            open,
            span.end,
            shape,
            fields.push(Some(values[k])),
            n,
            values,
            spans,
            upto,
        );
    }
}

/// An array that ends before the last field is refused, and the message tells how many
/// values there are, how many the record has, and the place after the closing mark. One
/// that goes on after the last field is refused too.
pub proof fn law_the_length_of_an_array_is_told(
    json: &[u8],
    shape: Shape,
    n: int,
    values: Seq<ValueView>,
    spans: Seq<Span>,
    upto: int,
    read: Result<Vec<Option<Value>>, String>,
)
    requires
        call_ensures(read_record, (json, shape), read),
        space_end(json@, 0) < json@.len(),
        json@[space_end(json@, 0)] == 0x5b,
        0 <= n <= shape.kinds().len(),
        n <= values.len(),
        positions_lead(json@, space_end(json@, 0) + 1, shape, 0, n, values, spans, upto),
    ensures
        ({
            let next = space_end(json@, upto);
            let closed = next < json@.len() && json@[next] == 0x5d;
            &&& closed && n < shape.kinds().len() && shape.kinds().len() != 1 ==> (
            read matches Err(told) && told@ == "invalid length "@ + text::decimal(n)
                + ", expected "@ + shape.title() + (" with "@ + text::decimal(
                shape.kinds().len() as int,
            ) + " elements"@) + place(json@, next + 1))
            &&& closed && n < shape.kinds().len() && shape.kinds().len() == 1 ==> (
            read matches Err(told) && told@ == "invalid length 0, expected "@ + shape.title()
                + " with 1 element"@ + place(json@, next + 1))
            &&& n == shape.kinds().len() && next >= json@.len() ==> (read matches Err(told)
                && told@ == "EOF while parsing a list"@ + place(json@, json@.len() as int))
            &&& n == shape.kinds().len() && next < json@.len() && json@[next] != 0x5d && json@[next]
                != 0x2c ==> (read matches Err(told) && told@ == "trailing characters"@ + place(
                json@,
                next + 1,
            ))
            &&& n == shape.kinds().len() && next < json@.len() && json@[next] == 0x2c ==> {
                let further = space_end(json@, next + 1);
                let past = if further < json@.len() {
                    further + 1
                } else {
                    json@.len() as int
                };
                let said = if further < json@.len() && json@[further] == 0x5d {
                    "trailing comma"@
                } else {
                    "trailing characters"@
                };
                read matches Err(told) && told@ == said + place(json@, past)
            }
        }),
{
    let open = space_end(json@, 0);
    wire::lemma_shape(shape);
    law_space_ends_at_the_first_other_byte(json@, 0);
    lemma_leading_positions(
        json@,
        open,
        open + 1,
        shape,
        Seq::empty(),
        n,
        values,
        spans,
        upto,
    );
    law_space_ends_at_the_first_other_byte(json@, upto);
    if space_end(json@, upto) < json@.len() {
        law_space_ends_at_the_first_other_byte(json@, space_end(json@, upto) + 1);
    }
    reveal_strlit("invalid length 0, expected ");
    reveal_strlit("invalid length ");
    reveal_strlit(", expected ");
    assert(text::decimal(0) =~= seq!['0']);
    assert("invalid length "@ + text::decimal(0) + ", expected "@
        =~= "invalid length 0, expected "@);
}

/// An object that goes on, after members that stand in it, with neither a further name
/// nor its end is refused with what `serde_json` says of that object; and so is one whose
/// next name has no colon after it.
pub proof fn law_a_broken_object_is_told(
    json: &[u8],
    shape: Shape,
    members: Seq<MemberSpan>,
    upto: int,
    held: Seq<Option<ValueView>>,
    read: Result<Vec<Option<Value>>, String>,
)
    requires
        call_ensures(read_record, (json, shape), read),
        space_end(json@, 0) < json@.len(),
        json@[space_end(json@, 0)] == 0x7b,
        members_lead(json@, space_end(json@, 0) + 1, true, shape, members, upto),
        members_hold(json@, shape, members, held),
        ({
            let next = space_end(json@, upto);
            let name = if members.len() == 0 {
                next
            } else {
                space_end(json@, next + 1)
            };
            ||| next >= json@.len()
            ||| json@[next] != 0x7d && members.len() > 0 && json@[next] != 0x2c
            ||| json@[next] != 0x7d && (name >= json@.len() || json@[name] != 0x22)
        }),
    ensures
        ({
            let whole = blanked(json@, space_end(json@, 0));
            read matches Err(told) && (json_object_flaw(whole) matches Some(said) ==> told@ == said)
        }),
{
    lemma_object_after(json@, 0, shape, members, upto, held);
    let open = space_end(json@, 0);
    assert(next_name(json@, open, upto, members.len() == 0) == Err::<
        Option<(Seq<char>, int)>,
        _,
    >(object_flaw_at(json@, open)));
    assert(record_at(json@, 0, shape) == Err::<(Seq<Option<ValueView>>, int), _>(
        object_flaw_at(json@, open),
    ));
}

/// Whether records stand at `places` from `at` on, one after the other, with commas
/// between them, and the last of them ends at `upto`.
pub open spec fn elements_lead(
    json: Seq<u8>,
    at: int,
    first: bool,
    element: Shape,
    places: Seq<int>,
    upto: int,
) -> bool
    decreases places.len(),
{
    if places.len() == 0 {
        upto == at
    } else {
        let next = space_end(json, at);
        let start = places[0];
        &&& next < json.len()
        &&& if first {
            start == next && json[next] != 0x5d
        } else {
            json[next] == 0x2c && start == space_end(json, next + 1)
        }
        &&& at <= start < json.len()
        &&& json[start] != 0x5d
        &&& record_at(json, start, element) matches Ok((_, end))
        &&& start < end <= json.len()
        &&& elements_lead(json, end, false, element, places.skip(1), upto)
    }
}

/// What records that stand in a list leave to be read.
proof fn lemma_leading_elements(
    json: Seq<u8>,
    open: int,
    at: int,
    element: Shape,
    done: Seq<int>,
    places: Seq<int>,
    upto: int,
)
    requires
        0 <= at <= json.len(),
        elements_lead(json, at, done.len() == 0, element, places, upto),
    ensures
        at <= upto <= json.len(),
        elements_from(json, open, at, element, done) == elements_from(
            json,
            open,
            upto,
            element,
            done + places,
        ),
    decreases places.len(),
{
    law_space_ends_at_the_first_other_byte(json, at);
    if places.len() == 0 {
        assert(done + places =~= done);
    } else {
        let start = places[0];
        let end = record_at(json, start, element)->Ok_0.1;
        let more = done.push(start);
        lemma_leading_elements(json, open, end, element, more, places.skip(1), upto);
        assert(more + places.skip(1) =~= done + places);
    }
}

/// The first record of a list that is wrong is what is told of the list: with what is
/// wrong with that record.
pub proof fn law_a_wrong_record_is_told_of_its_list(
    json: Seq<u8>,
    start: int,
    element: Shape,
    places: Seq<int>,
    upto: int,
    at: int,
    message: Seq<char>,
)
    requires
        0 <= start <= json.len(),
        space_end(json, start) < json.len(),
        json[space_end(json, start)] == 0x5b,
        elements_lead(json, space_end(json, start) + 1, true, element, places, upto),
        space_end(json, upto) < json.len(),
        if places.len() == 0 {
            at == space_end(json, upto)
        } else {
            json[space_end(json, upto)] == 0x2c && at == space_end(json, space_end(json, upto) + 1)
        },
        at < json.len(),
        json[at] != 0x5d,
        record_at(json, at, element) == Err::<(Seq<Option<ValueView>>, int), _>(message),
    ensures
        value_at(json, start, Kind::Records(element)) == Err::<(ValueView, int), _>(message),
{
    let open = space_end(json, start);
    law_space_ends_at_the_first_other_byte(json, start);
    lemma_leading_elements(json, open, open + 1, element, Seq::empty(), places, upto);
    assert(Seq::empty() + places =~= places);
    assert(next_element(json, open, upto, places.len() == 0) == Ok::<_, Seq<char>>(Some(at)));
}

}
