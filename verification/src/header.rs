//! What the HTTP layer accepts as a header name, a header value and a status
//! code, and what a header map holds. The answers come from `hyper`; what is
//! stated of them here is believed, not proved.

use std::str::FromStr;
use vstd::prelude::*;

verus! {

#[verifier::external_type_specification]
#[verifier::external_body]
#[verifier::reject_recursive_types(T)]
pub struct ExHeaderMap<T>(hyper::HeaderMap<T>);

#[verifier::external_type_specification]
#[verifier::external_body]
pub struct ExHeaderValue(hyper::header::HeaderValue);

/// A character that may stand in a header name: a letter, a digit, or one of
/// ``! " # $ % & ' * + - . ^ _ ` | ~``.
pub open spec fn is_name_char(c: char) -> bool {
    let n = c as u32;
    ||| 33 <= n <= 39
    ||| n == 42
    ||| n == 43
    ||| n == 45
    ||| n == 46
    ||| 48 <= n <= 57
    ||| 65 <= n <= 90
    ||| 94 <= n <= 122
    ||| n == 124
    ||| n == 126
}

/// A header name: between 1 and 65535 characters, each of them a name
/// character.
pub open spec fn valid_header_name(name: Seq<char>) -> bool {
    &&& 1 <= name.len() <= 65535
    &&& forall|i: int| 0 <= i < name.len() ==> is_name_char(#[trigger] name[i])
}

/// A character that may stand in a header value: a tab, or anything from the
/// space upwards but the delete character.
pub open spec fn is_value_char(c: char) -> bool {
    let n = c as u32;
    n == 9 || (n >= 32 && n != 127)
}

/// A header value: every character is a value character.
pub open spec fn valid_header_value(value: Seq<char>) -> bool {
    forall|i: int| 0 <= i < value.len() ==> is_value_char(#[trigger] value[i])
}

/// A status code that a response can carry.
pub open spec fn valid_status(code: u16) -> bool {
    100 <= code < 1000
}

/// The entries of a header map in the order in which the map hands them out:
/// one pair for each value, so a name with three values comes three times.
/// The second part is the value's text, or `None` where the value is not
/// made of tabs and visible ASCII characters alone.
pub uninterp spec fn header_entries(headers: hyper::HeaderMap<hyper::header::HeaderValue>) -> Seq<
    (Seq<char>, Option<Seq<char>>),
>;

/// Whether `hyper::header::HeaderName::from_str` accepts `name`. That
/// function takes a name of 1 to 65535 bytes, each found in its table of
/// name characters; the contract says the same by characters.
#[verifier::external_body]
pub(crate) fn header_name_ok(name: &str) -> (ok: bool)
    ensures
        ok == valid_header_name(name@),
{
    hyper::header::HeaderName::from_str(name).is_ok()
}

/// Whether `hyper::header::HeaderValue::from_str` accepts `value`. That
/// function refuses a string that holds a byte under 32 other than the tab,
/// or the byte 127; the contract says the same by characters.
#[verifier::external_body]
pub(crate) fn header_value_ok(value: &str) -> (ok: bool)
    ensures
        ok == valid_header_value(value@),
{
    hyper::header::HeaderValue::from_str(value).is_ok()
}

/// Whether `hyper::StatusCode::from_u16` accepts `code`: it takes the codes
/// from 100 up to 999.
#[verifier::external_body]
pub(crate) fn status_ok(code: u16) -> (ok: bool)
    ensures
        ok == valid_status(code),
{
    hyper::StatusCode::from_u16(code).is_ok()
}

/// Walks the map with `hyper::HeaderMap::iter` and copies each entry out:
/// the name's text, and the value's text as `HeaderValue::to_str` gives it.
#[verifier::external_body]
pub(crate) fn entries_of(headers: &hyper::HeaderMap<hyper::header::HeaderValue>) -> (out: Vec<
    (String, Option<String>),
>)
    ensures
        out.deep_view() == header_entries(*headers),
{
    headers.iter().map(|(k, v)| (k.as_str().to_string(), v.to_str().ok().map(String::from))).collect()
}

} // verus!
