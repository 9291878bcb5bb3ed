//! Ids cross the user-interface boundary as UUID text; inside the library
//! they are the UUIDs' 128-bit values.
use vstd::prelude::*;
use vstd::string::StringExecFns;

use crate::app::error::CommandError;

verus! {

/// What `uuid::Uuid::parse_str` makes of `s`: the UUID's 128-bit value, or
/// `None` when `s` is not a UUID in any of the forms the crate accepts.
pub uninterp spec fn uuid_parsed(s: Seq<char>) -> Option<u128>;

/// Lowercase hexadecimal digit for a nibble.
pub open spec fn nibble_char(d: u128) -> char {
    if d < 10 {
        (48 + d) as char
    } else {
        (87 + d) as char
    }
}

/// Which of the 32 hex digits position `i` of the hyphenated form holds.
pub open spec fn digit_index(i: int) -> int {
    if i < 8 {
        i
    } else if i < 13 {
        i - 1
    } else if i < 18 {
        i - 2
    } else if i < 23 {
        i - 3
    } else {
        i - 4
    }
}

/// The hyphenated lowercase form of a UUID, `8-4-4-4-12` hex digits of its
/// value, most significant first.
pub open spec fn uuid_text(x: u128) -> Seq<char> {
    Seq::new(
        36,
        |i: int|
            if i == 8 || i == 13 || i == 18 || i == 23 {
                '-'
            } else {
                nibble_char((x >> ((4 * (31 - digit_index(i))) as u128)) & 15)
            },
    )
}

/// `Uuid::from_u128(x).to_string()`: the hyphenated lowercase form, which
/// `Uuid::parse_str` reads back as `x`.
#[verifier::external_body]
pub(crate) fn uuid_string(x: u128) -> (s: String)
    ensures
        s@ == uuid_text(x),
        uuid_parsed(s@) == Some(x),
{
    uuid::Uuid::from_u128(x).to_string()
}

/// `Uuid::parse_str(s)`, as the UUID's 128-bit value.
#[verifier::external_body]
pub(crate) fn uuid_parse(s: &str) -> (r: Option<u128>)
    ensures
        r == uuid_parsed(s@),
{
    match uuid::Uuid::parse_str(s) {
        Ok(u) => Some(u.as_u128()),
        Err(_) => None,
    }
}

/// Parses an id sent across the boundary. Text that is no UUID is an
/// invalid id carrying the text, not a "not found".
pub fn parse_uuid(s: &str) -> (r: Result<u128, CommandError>)
    ensures
        match uuid_parsed(s@) {
            Some(x) => r == Ok::<u128, CommandError>(x),
            None => r matches Err(CommandError::InvalidId(t)) && t@ == s@,
        },
{
    match uuid_parse(s) {
        Some(x) => Ok(x),
        None => Err(CommandError::InvalidId(String::from_str(s))),
    }
}

} // verus!
