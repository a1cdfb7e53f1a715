//! Takes credentials and personal data out of free text.
use crate::patterns::{lemma_match_bounds, pattern_end, Pattern};
use crate::text::{lemma_boundary_after_ascii, lemma_encode_concat};
use vstd::prelude::*;
use vstd::utf8::*;

verus! {

/// What stands in the place of everything that is taken out.
pub const REDACTED: &'static str = "[redacted]";

/// `bytes` from `index` on, with every match of `pattern` that is met on the
/// way, from the left, replaced by `[redacted]`. The search goes on behind a
/// match.
pub open spec fn redacted_from(pattern: Pattern, bytes: Seq<u8>, index: int) -> Seq<u8>
    decreases bytes.len() - index,
{
    if !(0 <= index < bytes.len()) {
        seq![]
    } else {
        proof {
            lemma_match_bounds(pattern, bytes, index);
        }
        match pattern_end(pattern, bytes, index) {
            Some(end) => encode_utf8(REDACTED@) + redacted_from(pattern, bytes, end),
            None => seq![bytes[index]] + redacted_from(pattern, bytes, index + 1),
        }
    }
}

/// `bytes` with every match of `pattern` replaced.
pub open spec fn redacted(pattern: Pattern, bytes: Seq<u8>) -> Seq<u8> {
    redacted_from(pattern, bytes, 0)
}

/// The four searches, one after the other.
pub open spec fn swept(bytes: Seq<u8>) -> Seq<u8> {
    let bytes = redacted(Pattern::Bearer, bytes);
    let bytes = redacted(Pattern::Jwt, bytes);
    let bytes = redacted(Pattern::CardNumber, bytes);
    redacted(Pattern::Email, bytes)
}

/// What is left of `text`.
pub open spec fn scrubbed_text(text: Seq<char>) -> Seq<char> {
    decode_utf8(swept(encode_utf8(text)))
}

/// Replaces every span that `pattern` reports with `[redacted]`. Matches start
/// and end on ASCII bytes, so the slices stay on character boundaries.
pub fn replace_matches(value: &str, pattern: Pattern) -> (out: String)
    ensures
        encode_utf8(out@) == redacted(pattern, encode_utf8(value@)),
{
    let bytes: &[u8] = value.as_bytes();
    let length: usize = bytes.len();
    let mut out: String = String::new();
    let mut index: usize = 0;
    let mut copied: usize = 0;
    proof {
        encode_utf8_valid_utf8(value@);
        is_char_boundary_start_end_of_seq(bytes@);
        assert(encode_utf8(out@) + bytes@.subrange(0, 0) + redacted(pattern, bytes@) =~= redacted(
            pattern,
            bytes@,
        ));
    }
    while index < length
        invariant
            length == bytes@.len(),
            bytes@ == encode_utf8(value@),
            valid_utf8(bytes@),
            copied <= index <= length,
            is_char_boundary(bytes@, copied as int),
            encode_utf8(out@) + bytes@.subrange(copied as int, index as int) + redacted_from(
                pattern,
                bytes@,
                index as int,
            ) == redacted(pattern, bytes@),
        decreases length - index,
    {
        proof {
            lemma_match_bounds(pattern, bytes@, index as int);
        }
        match pattern.match_at(bytes, index) {
            Some(end) => {
                let ghost before = out@;
                let (_, rest) = value.split_at(copied);
                proof {
                    valid_utf8_split(bytes@, copied as int);
                    let rest_bytes = encode_utf8(rest@);
                    assert(rest_bytes[index - copied] == bytes@[index as int]);
                    is_char_boundary_iff_is_leading_byte(rest_bytes, index - copied);
                }
                let (kept, _) = rest.split_at(index - copied);
                out.append(kept);
                out.append(REDACTED);
                proof {
                    assert(encode_utf8(kept@) == bytes@.subrange(copied as int, index as int));
                    lemma_encode_concat(before, kept@);
                    lemma_encode_concat(before + kept@, REDACTED@);
                    lemma_boundary_after_ascii(bytes@, end as int);
                    assert(encode_utf8(out@) + bytes@.subrange(end as int, end as int)
                        + redacted_from(pattern, bytes@, end as int) =~= encode_utf8(before)
                        + bytes@.subrange(copied as int, index as int) + redacted_from(
                        pattern,
                        bytes@,
                        index as int,
                    ));
                }
                index = end;
                copied = end;
            },
            None => {
                proof {
                    assert(bytes@.subrange(copied as int, index + 1) =~= bytes@.subrange(
                        copied as int,
                        index as int,
                    ) + seq![bytes@[index as int]]);
                    assert(encode_utf8(out@) + bytes@.subrange(copied as int, index + 1)
                        + redacted_from(pattern, bytes@, index + 1) =~= encode_utf8(out@)
                        + bytes@.subrange(copied as int, index as int) + redacted_from(
                        pattern,
                        bytes@,
                        index as int,
                    ));
                }
                index += 1;
            },
        }
    }
    let (_, rest) = value.split_at(copied);
    let ghost before = out@;
    out.append(rest);
    proof {
        lemma_encode_concat(before, rest@);
    }
    out
}

/// Removes credentials and personal data that leaked into free text.
pub fn scrub_text(value: &str) -> (out: String)
    ensures
        encode_utf8(out@) == swept(encode_utf8(value@)),
        out@ == scrubbed_text(value@),
{
    let out: String = replace_matches(value, Pattern::Bearer);
    let out: String = replace_matches(out.as_str(), Pattern::Jwt);
    let out: String = replace_matches(out.as_str(), Pattern::CardNumber);
    let out: String = replace_matches(out.as_str(), Pattern::Email);
    proof {
        encode_utf8_decode_utf8(out@);
    }
    out
}

} // verus!
