//! Identifiers of events and spans, and the headers that carry them.
use crate::ascii::lower_hex_digit;
use crate::outside::fill_random;
use vstd::prelude::*;
use vstd::utf8::*;

verus! {

/// What an idempotency key may take, in bytes.
pub const MAX_IDEMPOTENCY_KEY_LENGTH: usize = 256;

/// The hexadecimal digit of a value below 16.
pub open spec fn hex_char(value: int) -> char {
    if value < 10 {
        ('0' as int + value) as char
    } else {
        ('a' as int + value - 10) as char
    }
}

/// Two lower-case hexadecimal digits for each byte.
pub open spec fn hex_text(bytes: Seq<u8>) -> Seq<char>
    decreases bytes.len(),
{
    if bytes.len() == 0 {
        seq![]
    } else {
        hex_text(bytes.drop_last()).push(hex_char(bytes.last() as int / 16)).push(
            hex_char(bytes.last() as int % 16),
        )
    }
}

/// A text that stands for `bytes` bytes in lower-case hexadecimal digits.
pub open spec fn hex_id(text: Seq<char>, bytes: int) -> bool {
    text.len() == 2 * bytes && forall|i: int|
        0 <= i < text.len() ==> lower_hex_digit(#[trigger] text[i])
}

/// Nothing but the digit zero.
pub open spec fn only_zeros(text: Seq<char>) -> bool {
    forall|i: int| 0 <= i < text.len() ==> #[trigger] text[i] == '0'
}

/// Fit to be sent as the value of a header: not empty, and on one line.
pub open spec fn header_safe(text: Seq<char>) -> bool {
    text.len() > 0 && one_line(text)
}

/// Without line breaks.
pub open spec fn one_line(text: Seq<char>) -> bool {
    forall|i: int| 0 <= i < text.len() ==> #[trigger] text[i] != '\r' && text[i] != '\n'
}

/// Fit to be sent as an idempotency key.
pub open spec fn key_safe(text: Seq<char>) -> bool {
    header_safe(text) && encode_utf8(text).len() <= MAX_IDEMPOTENCY_KEY_LENGTH
}

/// What `hex_text` writes is a hexadecimal id.
pub proof fn lemma_hex_text(bytes: Seq<u8>)
    ensures
        hex_id(hex_text(bytes), bytes.len() as int),
    decreases bytes.len(),
{
    if bytes.len() > 0 {
        lemma_hex_text(bytes.drop_last());
    }
}

/// A hexadecimal id is fit to be an idempotency key, if it is not too long.
pub proof fn lemma_hex_id_safe(text: Seq<char>, bytes: int)
    requires
        hex_id(text, bytes),
        0 < bytes,
        2 * bytes <= MAX_IDEMPOTENCY_KEY_LENGTH,
    ensures
        key_safe(text),
{
    assert forall|i: int| 0 <= i < text.len() implies #[trigger] text[i] != '\r' && text[i]
        != '\n' && '\0' <= text[i] <= '\u{7f}' by {
        assert(lower_hex_digit(text[i]));
    }
    is_ascii_chars_encode_utf8(text);
}

/// Writes `bytes` in lower-case hexadecimal digits.
pub fn hex_encode(bytes: &Vec<u8>) -> (text: String)
    ensures
        text@ == hex_text(bytes@),
{
    let mut text: String = String::new();
    let mut i: usize = 0;
    while i < bytes.len()
        invariant
            i <= bytes@.len(),
            text@ == hex_text(bytes@.take(i as int)),
        decreases bytes@.len() - i,
    {
        assert(bytes@.take(i + 1).drop_last() == bytes@.take(i as int));
        text.push(hex_digit_of(bytes[i] / 16));
        text.push(hex_digit_of(bytes[i] % 16));
        i += 1;
    }
    assert(bytes@.take(i as int) == bytes@);
    text
}

fn hex_digit_of(value: u8) -> (c: char)
    requires
        value < 16,
    ensures
        c == hex_char(value as int),
{
    if value < 10 {
        ('0' as u8 + value) as char
    } else {
        ('a' as u8 + (value - 10)) as char
    }
}

/// `bytes` came out of a call for random bytes.
pub closed spec fn random_draw(bytes: Seq<u8>) -> bool {
    exists|data: Vec<u8>, drawn: Vec<u8>| #[trigger]
        call_ensures(fill_random, (data,), drawn) && drawn@ == bytes
}

/// What came out of a call for random bytes is what `fill_random` gave.
pub(crate) proof fn law_random_draw(bytes: Seq<u8>)
    requires
        random_draw(bytes),
    ensures
        exists|data: Vec<u8>, drawn: Vec<u8>| #[trigger]
            call_ensures(fill_random, (data,), drawn) && drawn@ == bytes,
{
}

/// A text that stands for `bytes` bytes that were drawn at random, in lower-case
/// hexadecimal digits.
pub open spec fn fresh_id(text: Seq<char>, bytes: int) -> bool {
    hex_id(text, bytes) && exists|drawn: Seq<u8>| #[trigger]
        random_draw(drawn) && drawn.len() == bytes && text == hex_text(drawn)
}

/// `fresh_id`, but for the last bit of an id that would be zero.
pub open spec fn fresh_nonzero_id(text: Seq<char>, bytes: int) -> bool {
    hex_id(text, bytes) && !only_zeros(text) && exists|drawn: Seq<u8>| #[trigger]
        random_draw(drawn) && drawn.len() == bytes && text == hex_text(nonzero(drawn))
}

/// A fresh random id of `bytes` bytes, in lower-case hexadecimal digits.
pub fn random_hex(bytes: usize) -> (text: String)
    ensures
        fresh_id(text@, bytes as int),
{
    let drawn: Vec<u8> = fill_random(vec![0u8; bytes]);
    proof {
        lemma_hex_text(drawn@);
        assert(random_draw(drawn@));
    }
    hex_encode(&drawn)
}

/// `bytes`, but for a last byte of one where all of them are zero.
pub open spec fn nonzero(bytes: Seq<u8>) -> Seq<u8> {
    if bytes.len() > 0 && forall|i: int| 0 <= i < bytes.len() ==> #[trigger] bytes[i] == 0 {
        bytes.update(bytes.len() - 1, 1)
    } else {
        bytes
    }
}

/// A text of zeros stands for bytes that are zero.
proof fn lemma_hex_zeros(bytes: Seq<u8>)
    requires
        only_zeros(hex_text(bytes)),
    ensures
        forall|i: int| 0 <= i < bytes.len() ==> #[trigger] bytes[i] == 0,
    decreases bytes.len(),
{
    if bytes.len() > 0 {
        let rest = bytes.drop_last();
        let text = hex_text(bytes);
        let before = hex_text(rest);
        let last = bytes[bytes.len() - 1];
        assert(text[before.len() as int] == hex_char(last as int / 16));
        assert(text[before.len() as int + 1] == hex_char(last as int % 16));
        assert(last == 0);
        assert forall|i: int| 0 <= i < before.len() implies #[trigger] before[i] == '0' by {
            assert(text[i] == before[i]);
        }
        lemma_hex_zeros(rest);
        assert forall|i: int| 0 <= i < bytes.len() implies #[trigger] bytes[i] == 0 by {
            if i < rest.len() {
                assert(rest[i] == 0);
            }
        }
    }
}

/// Changes the last byte where all of them are zero.
pub fn make_nonzero(data: &mut Vec<u8>)
    ensures
        final(data)@ == nonzero(old(data)@),
{
    let mut i: usize = 0;
    while i < data.len()
        invariant
            i <= data@.len(),
            data@ == old(data)@,
            forall|k: int| 0 <= k < i ==> #[trigger] data@[k] == 0,
        decreases data@.len() - i,
    {
        if data[i] != 0 {
            assert(data@[i as int] != 0);
            return;
        }
        i += 1;
    }
    if i > 0 {
        data.set(i - 1, 1);
    }
}

/// A fresh random id of `bytes` bytes that is not zero, in lower-case
/// hexadecimal digits.
pub fn random_nonzero_hex(bytes: usize) -> (text: String)
    requires
        bytes > 0,
    ensures
        fresh_nonzero_id(text@, bytes as int),
{
    let mut data: Vec<u8> = fill_random(vec![0u8; bytes]);
    assert(random_draw(data@));
    make_nonzero(&mut data);
    proof {
        lemma_hex_text(data@);
        if only_zeros(hex_text(data@)) {
            lemma_hex_zeros(data@);
            assert(data@[data@.len() - 1] == 0);
        }
    }
    hex_encode(&data)
}

pub fn safe_header_value(value: &str) -> (result: bool)
    ensures
        result == header_safe(value@),
{
    if value.is_empty() {
        return false;
    }
    for c in chars: value.chars()
        invariant
            chars.seq() == value@,
            forall|i: int|
                0 <= i < chars.index() ==> #[trigger] value@[i] != '\r' && value@[i] != '\n',
    {
        if c == '\r' || c == '\n' {
            assert(value@[chars.index() as int] == c);
            return false;
        }
    }
    true
}

/// A caller-supplied event id becomes the `idempotency-key` header, so it is
/// bounded as well as newline-free.
pub fn safe_idempotency_key(value: &str) -> (result: bool)
    ensures
        result == key_safe(value@),
{
    safe_header_value(value) && value.as_bytes().len() <= MAX_IDEMPOTENCY_KEY_LENGTH
}

/// The id of an event: the one that was asked for where it is fit to be sent,
/// a fresh one otherwise.
pub fn resolve_event_id(value: Option<String>) -> (id: String)
    ensures
        event_id_for(value, id@),
        key_safe(id@),
{
    if let Some(candidate) = value {
        if safe_idempotency_key(candidate.as_str()) {
            return candidate;
        }
    }
    let id: String = random_hex(16);
    proof {
        lemma_hex_id_safe(id@, 16);
    }
    id
}

/// Whether `id` is an id for an event that was asked to have the id `wanted`.
pub open spec fn event_id_for(wanted: Option<String>, id: Seq<char>) -> bool {
    match wanted {
        Some(candidate) if key_safe(candidate@) => id == candidate@,
        _ => fresh_id(id, 16),
    }
}

} // verus!
