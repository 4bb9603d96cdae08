use vstd::prelude::*;

use crate::text::chars_of;

verus! {

/// Longest name, in characters, for a user or a room.
pub const MAX_NAME_LEN: usize = 20;

/// A character allowed in user and room names: ASCII letters and digits, `_` and `-`.
pub open spec fn name_char_ok(c: char) -> bool {
    ('a' <= c && c <= 'z') || ('A' <= c && c <= 'Z') || ('0' <= c && c <= '9') || c == '_'
        || c == '-'
}

/// Every character of `s` is allowed in a name.
pub open spec fn name_chars_ok(s: Seq<char>) -> bool {
    forall|i: int| 0 <= i < s.len() ==> #[trigger] name_char_ok(s[i])
}

/// Why a user or room name is refused.
#[derive(Debug, Clone, Copy, PartialEq, Eq, Structural)]
pub enum NameError {
    InvalidCharacters,
    TooLong,
    Empty,
}

/// The first rule that a name breaks, checked characters first, then length.
pub open spec fn name_error(s: Seq<char>) -> Option<NameError> {
    if !name_chars_ok(s) {
        Some(NameError::InvalidCharacters)
    } else if s.len() > MAX_NAME_LEN {
        Some(NameError::TooLong)
    } else if s.len() == 0 {
        Some(NameError::Empty)
    } else {
        None
    }
}

/// A name of 1 to 20 allowed characters.
pub open spec fn valid_name(s: Seq<char>) -> bool {
    name_error(s) is None
}

fn chars_ok(chars: &Vec<char>) -> (r: bool)
    ensures
        r == name_chars_ok(chars@),
{
    let mut i: usize = 0;
    while i < chars.len()
        invariant
            i <= chars@.len(),
            forall|j: int| 0 <= j < i ==> #[trigger] name_char_ok(chars@[j]),
        decreases chars@.len() - i,
    {
        let c = chars[i];
        let ok = ('a' <= c && c <= 'z') || ('A' <= c && c <= 'Z') || ('0' <= c && c <= '9')
            || c == '_' || c == '-';
        if !ok {
            assert(!name_char_ok(chars@[i as int]));
            return false;
        }
        i = i + 1;
    }
    true
}

/// Whether a user name is non-empty and every character of it is allowed; the
/// length bound is checked by `check_name`.
pub fn is_valid_username(username: &str) -> (r: bool)
    ensures
        r == (username@.len() >= 1 && name_chars_ok(username@)),
{
    let chars = chars_of(username);
    chars.len() >= 1 && chars_ok(&chars)
}

/// Whether a room name is non-empty and every character of it is allowed; the
/// length bound is checked by `check_name`.
pub fn is_valid_room_name(room_name: &str) -> (r: bool)
    ensures
        r == (room_name@.len() >= 1 && name_chars_ok(room_name@)),
{
    let chars = chars_of(room_name);
    chars.len() >= 1 && chars_ok(&chars)
}

/// The first rule that a user or room name breaks, if any.
pub fn check_name(name: &str) -> (r: Option<NameError>)
    ensures
        r == name_error(name@),
{
    let chars = chars_of(name);
    if !chars_ok(&chars) {
        Some(NameError::InvalidCharacters)
    } else if chars.len() > MAX_NAME_LEN {
        Some(NameError::TooLong)
    } else if chars.len() == 0 {
        Some(NameError::Empty)
    } else {
        None
    }
}

} // verus!
