//! JSON values of the `serde_json` crate, which the library carries without looking inside.

use vstd::prelude::*;

use crate::numbers::{digits_value, is_digit};
use crate::text::opt_text;

verus! {

/// `serde_json::Value`: a JSON value.
#[verifier::external_type_specification]
#[verifier::external_body]
pub struct ExJsonValue(serde_json::Value);

/// `serde_json::Error`: what is wrong with a JSON text or value.
#[verifier::external_type_specification]
#[verifier::external_body]
pub struct ExJsonError(serde_json::Error);

/// The value that `serde_json::from_str` reads from a text, where it is JSON.
pub uninterp spec fn json_value(text: Seq<char>) -> Option<serde_json::Value>;

/// The text that `serde_json::to_string_pretty` writes for a value.
pub uninterp spec fn json_pretty(value: serde_json::Value) -> Option<Seq<char>>;

/// The text that `serde_json::Value::as_str` finds in a value, where it is a string.
pub uninterp spec fn json_str(value: serde_json::Value) -> Option<Seq<char>>;

/// The number that `serde_json::Value::as_u64` finds in a value, where it is one of `u64`.
pub uninterp spec fn json_u64(value: serde_json::Value) -> Option<u64>;

/// The value was read from some text.
pub open spec fn was_read(value: serde_json::Value) -> bool {
    exists|text: Seq<char>| #[trigger] json_value(text) == Some(value)
}

/// Where a reader of JSON text stands: outside of strings, inside of one, or inside of one
/// behind a backslash.
pub enum Place {
    Outside,
    Inside,
    Escaped,
}

/// Where a reader stands behind this text.
pub open spec fn place_behind(text: Seq<char>) -> Place
    decreases text.len(),
{
    if text.len() == 0 {
        Place::Outside
    } else {
        match place_behind(text.drop_last()) {
            Place::Outside => if text.last() == '"' {
                Place::Inside
            } else {
                Place::Outside
            },
            Place::Inside => if text.last() == '"' {
                Place::Outside
            } else if text.last() == '\\' {
                Place::Escaped
            } else {
                Place::Inside
            },
            Place::Escaped => Place::Inside,
        }
    }
}

/// The character at index `i` stands outside of strings.
pub open spec fn is_outside(text: Seq<char>, i: int) -> bool {
    0 <= i < text.len() && place_behind(text.take(i)) is Outside
}

/// From index `i` up to index `j` stand digits, outside of strings.
pub open spec fn is_digit_run(text: Seq<char>, i: int, j: int) -> bool {
    &&& 0 <= i < j <= text.len()
    &&& forall|k: int| i <= k < j ==> is_outside(text, k) && is_digit(#[trigger] text[k])
}

/// Every number in the JSON text is an integer of `u64` or of `i64`: outside of strings no
/// digit is followed by a fraction or an exponent, and no digits make a larger number.
pub open spec fn holds_integers_only(text: Seq<char>) -> bool {
    &&& forall|i: int| #[trigger]
        is_outside(text, i) ==> {
            &&& text[i] != '.'
            &&& text[i] == 'e' || text[i] == 'E' ==> i > 0 && !is_digit(text[i - 1])
        }
    &&& forall|i: int, j: int| #[trigger]
        is_digit_run(text, i, j) ==> digits_value(text.subrange(i, j)) <= (if i > 0 && text[i - 1]
            == '-' {
            0x8000_0000_0000_0000
        } else {
            u64::MAX as int
        })
}

/// Calls `serde_json::from_str` for a `Value`: whether it succeeds, and the value
/// then, depend on the text alone.
#[verifier::external_body]
pub(crate) fn read_json(text: &str) -> (r: Result<serde_json::Value, serde_json::Error>)
    ensures
        json_value(text@) == r.ok(),
{
    serde_json::from_str::<serde_json::Value>(text)
}

/// Calls `serde_json::to_string_pretty`: whether it succeeds, and the text then, depend
/// on the value alone. The printer recurses into the value, so the value has to be one
/// that the reader, which limits the nesting, let through. The text reads back as the same
/// value where the value comes from a text whose numbers are all integers; the reader may
/// miss other numbers by their last digit.
#[verifier::external_body]
pub(crate) fn print_json(value: &serde_json::Value) -> (r: Result<String, serde_json::Error>)
    requires
        was_read(*value),
    ensures
        json_pretty(*value) == (match r {
            Ok(text) => Some(text@),
            Err(_) => None::<Seq<char>>,
        }),
        r matches Ok(printed) ==> forall|text: Seq<char>| #[trigger]
            json_value(text) == Some(*value) && holds_integers_only(text) ==> json_value(printed@)
                == Some(*value),
{
    serde_json::to_string_pretty(value)
}

/// Calls `serde_json::Value::as_str`: the text depends on the value alone.
#[verifier::external_body]
pub(crate) fn json_as_str(value: &serde_json::Value) -> (r: Option<&str>)
    ensures
        json_str(*value) == (match r {
            Some(text) => Some(text@),
            None => None::<Seq<char>>,
        }),
{
    value.as_str()
}

/// Calls `serde_json::Value::as_u64`: the number depends on the value alone.
#[verifier::external_body]
pub(crate) fn json_as_u64(value: &serde_json::Value) -> (r: Option<u64>)
    ensures
        json_u64(*value) == r,
{
    value.as_u64()
}

/// The JSON text read and printed with indentation, where it is JSON.
pub open spec fn reprinted(text: Seq<char>) -> Option<Seq<char>> {
    match json_value(text) {
        Some(value) => json_pretty(value),
        None => None,
    }
}

/// Reads a JSON text and prints its value with indentation; `None` where the text is
/// not JSON or the value cannot be printed. What is printed reads back as the same value
/// where all numbers are integers.
pub fn reprint(text: &str) -> (r: Option<String>)
    ensures
        opt_text(r) == reprinted(text@),
        r matches Some(pretty) ==> holds_integers_only(text@) ==> json_value(pretty@)
            == json_value(text@),
{
    match read_json(text) {
        Ok(value) => {
            assert(json_value(text@) == Some(value));
            match print_json(&value) {
                Ok(pretty) => Some(pretty),
                Err(_) => None,
            }
        },
        Err(_) => None,
    }
}

} // verus!
