//! What the library takes from the standard library and from other crates
//! without a proof: each item states what is believed of the code behind it.
use crate::ascii::digit;
use rand::RngCore;
use vstd::prelude::*;

verus! {

/// A JSON number, which is carried through unread.
#[verifier::external_type_specification]
#[verifier::external_body]
pub struct ExNumber(serde_json::Number);

/// `Number::clone`: the copy is the same number.
pub assume_specification[ <serde_json::Number as std::clone::Clone>::clone ](
    number: &serde_json::Number,
) -> (copy: serde_json::Number)
    ensures
        copy == *number,
;

/// `String::push`: the character is appended.
pub assume_specification[ std::string::String::push ](text: &mut std::string::String, c: char)
    ensures
        final(text)@ == old(text)@.push(c),
;

/// The characters with the Unicode property `White_Space`.
pub open spec fn white_space(c: char) -> bool {
    ||| '\u{9}' <= c <= '\u{d}'
    ||| c == '\u{20}'
    ||| c == '\u{85}'
    ||| c == '\u{a0}'
    ||| c == '\u{1680}'
    ||| '\u{2000}' <= c <= '\u{200a}'
    ||| c == '\u{2028}'
    ||| c == '\u{2029}'
    ||| c == '\u{202f}'
    ||| c == '\u{205f}'
    ||| c == '\u{3000}'
}

/// `text` from its first character on that is not white space.
pub open spec fn trimmed_start(text: Seq<char>) -> Seq<char>
    decreases text.len(),
{
    if text.len() > 0 && white_space(text.first()) {
        trimmed_start(text.drop_first())
    } else {
        text
    }
}

/// `text` up to its last character that is not white space.
pub open spec fn trimmed_end(text: Seq<char>) -> Seq<char>
    decreases text.len(),
{
    if text.len() > 0 && white_space(text.last()) {
        trimmed_end(text.drop_last())
    } else {
        text
    }
}

/// `text` without the white space at both ends.
pub open spec fn trimmed(text: Seq<char>) -> Seq<char> {
    trimmed_end(trimmed_start(text))
}

/// `str::trim`: the white space at both ends is left out, where white space is
/// what has the Unicode property `White_Space`.
pub assume_specification[ str::trim ](text: &str) -> (result: &str)
    ensures
        result@ == trimmed(text@),
;

/// `OsRng::fill_bytes` of `rand`: every byte of `data` is overwritten with one
/// from the random number generator of the operating system, and none is added
/// or taken away. Nothing is said of the bytes themselves. It panics where the
/// operating system has no randomness to give.
#[verifier::external_body]
pub(crate) fn fill_random(data: Vec<u8>) -> (drawn: Vec<u8>)
    ensures
        drawn@.len() == data@.len(),
{
    let mut drawn = data;
    rand::rngs::OsRng.fill_bytes(&mut drawn);
    drawn
}

/// A time in UTC, to the millisecond, as RFC 3339 writes it: a year of at least
/// four places, with a plus sign if it has more, and then
/// `-MM-DDThh:mm:ss.mmmZ`.
pub open spec fn utc_timestamp(text: Seq<char>) -> bool {
    let from = text.len() - 20;
    &&& text.len() >= 24
    &&& forall|i: int|
        0 <= i < from ==> digit(#[trigger] text[i]) || i == 0 && text[i] == '+'
    &&& text[from] == '-' && text[from + 3] == '-' && text[from + 6] == 'T'
    &&& text[from + 9] == ':' && text[from + 12] == ':' && text[from + 15] == '.'
    &&& text[from + 19] == 'Z'
    &&& forall|i: int|
        from < i < from + 19 && i != from + 3 && i != from + 6 && i != from + 9 && i != from + 12
            && i != from + 15 ==> digit(#[trigger] text[i])
}

/// `Utc::now` of `chrono`, written by `DateTime::to_rfc3339_opts` with
/// milliseconds and with `Z` for the offset. Nothing is said of which time it
/// is. It panics where the clock of the system stands before 1970, or past the
/// last year that `chrono` counts.
#[verifier::external_body]
pub(crate) fn now() -> (text: String)
    ensures
        utc_timestamp(text@),
{
    chrono::Utc::now().to_rfc3339_opts(chrono::SecondsFormat::Millis, true)
}

/// The JSON number of an integer: what `Number::from` of `serde_json` makes of
/// it.
pub uninterp spec fn integer_number(value: i64) -> serde_json::Number;

/// `Number::from` of `serde_json` on an `i64`: the number depends on the
/// integer alone.
#[verifier::external_body]
pub(crate) fn number_from(value: i64) -> (number: serde_json::Number)
    ensures
        number == integer_number(value),
{
    serde_json::Number::from(value)
}

/// A captured stack, which is only ever written out as text.
#[verifier::external_type_specification]
#[verifier::external_body]
pub struct ExBacktrace(std::backtrace::Backtrace);

/// `Backtrace::force_capture`: the stack of the running thread. Nothing is said
/// of what it holds, which depends on how the program was built and on where it
/// stands.
pub assume_specification[ std::backtrace::Backtrace::force_capture ]() -> (stack:
    std::backtrace::Backtrace)
;

} // verus!
