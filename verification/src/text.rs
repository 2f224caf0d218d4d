//! Texts that are put together, and what they show.

use vstd::prelude::*;

verus! {

/// One text behind the other.
pub fn join(a: &str, b: &str) -> (r: String)
    ensures
        r@ == a@ + b@,
{
    let mut text = a.to_owned();
    text.append(b);
    text
}

/// A text between two others.
pub fn between(before: &str, text: &str, after: &str) -> (r: String)
    ensures
        r@ == before@ + text@ + after@,
{
    let mut all = before.to_owned();
    all.append(text);
    all.append(after);
    all
}

/// A text in quotes, in which what cannot be printed as it is has been escaped.
pub uninterp spec fn debug_text(text: Seq<char>) -> Seq<char>;

/// The `Debug` form of a `str`.
#[verifier::external_body]
pub(crate) fn show_text(text: &str) -> (r: String)
    ensures
        r@ == debug_text(text@),
{
    format!("{text:?}")
}

/// Whether a character is a decimal digit.
pub open spec fn is_digit(c: char) -> bool {
    '0' <= c <= '9'
}

/// The number that decimal digits show; nothing where there are none, or something else is among them.
pub open spec fn digits_value(text: Seq<char>) -> Option<nat>
    decreases text.len(),
{
    if text.len() == 0 || !is_digit(text.last()) {
        None
    } else if text.len() == 1 {
        Some((text.last() as int - '0' as int) as nat)
    } else {
        match digits_value(text.drop_last()) {
            Some(front) => Some((front * 10 + (text.last() as int - '0' as int)) as nat),
            None => None,
        }
    }
}

/// The number that a text shows: decimal digits, behind a sign or not.
pub open spec fn shown_number(text: Seq<char>) -> Option<int> {
    if text.len() > 0 && (text[0] == '-' || text[0] == '+') {
        match digits_value(text.drop_first()) {
            Some(value) => Some(if text[0] == '-' { -value } else { value as int }),
            None => None,
        }
    } else {
        match digits_value(text) {
            Some(value) => Some(value as int),
            None => None,
        }
    }
}

/// A character in lower case, if it is one of the English alphabet.
pub open spec fn lowered_char(c: char) -> char {
    if 'A' <= c <= 'Z' {
        (c as u32 + 32) as char
    } else {
        c
    }
}

/// A text with the letters of the English alphabet in lower case.
pub open spec fn lowered(text: Seq<char>) -> Seq<char> {
    Seq::new(text.len(), |i: int| lowered_char(text[i]))
}

} // verus!
