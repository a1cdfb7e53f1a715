//! What is found in a text, and what comes out of it, said of its bytes.
use crate::ascii::{digit, lower};
use crate::laws::luhn::{law_every_second_digit_is_doubled, places_add};
use crate::laws::sweep::lemma_swept_valid;
use crate::patterns::{
    byte_is, card_span, digits_of, dotted_segment_end, host_labels, in_class,
    lemma_card_number_end, lemma_match_bounds, lemma_run, pattern_end, run_end, separator,
    ByteClass, Pattern,
};
use crate::sweep::{redacted, redacted_from, scrubbed_text, REDACTED};
use vstd::prelude::*;
use vstd::utf8::*;

verus! {

/// An ASCII letter or a digit.
pub open spec fn letter_or_digit(byte: u8) -> bool {
    48 <= byte <= 57 || 65 <= byte <= 90 || 97 <= byte <= 122
}

/// No letter, digit or underscore stands right before `start`.
pub open spec fn begins_word(bytes: Seq<u8>, start: int) -> bool {
    start == 0 || !(letter_or_digit(bytes[start - 1]) || bytes[start - 1] as char == '_')
}

pub open spec fn blank_byte(byte: u8) -> bool {
    byte as char == ' ' || byte as char == '\t'
}

pub open spec fn token_byte(byte: u8) -> bool {
    let c = byte as char;
    letter_or_digit(byte) || c == '_' || c == '.' || c == '~' || c == '+' || c == '/' || c == '-'
        || c == '='
}

pub open spec fn segment_byte(byte: u8) -> bool {
    letter_or_digit(byte) || byte as char == '-' || byte as char == '_'
}

pub open spec fn local_byte(byte: u8) -> bool {
    let c = byte as char;
    letter_or_digit(byte) || c == '.' || c == '%' || c == '+' || c == '-' || c == '_'
}

pub open spec fn label_byte(byte: u8) -> bool {
    letter_or_digit(byte) || byte as char == '-'
}

/// The word `bearer` in either case, blanks, and a token up to its last byte.
pub open spec fn bearer_from_to(bytes: Seq<u8>, start: int, token: int, end: int) -> bool {
    &&& start + 6 < token < end
    &&& forall|k: int|
        0 <= k < 6 ==> (#[trigger] bytes[start + k]) as char == "bearer"@[k] || bytes[start + k]
            as char == "BEARER"@[k]
    &&& forall|i: int| start + 6 <= i < token ==> blank_byte(#[trigger] bytes[i])
    &&& forall|i: int| token <= i < end ==> token_byte(#[trigger] bytes[i])
    &&& end < bytes.len() ==> !token_byte(bytes[end])
}

/// `eyJ` and what else is in a segment, a dot, a segment, a dot, and a segment
/// up to its last byte.
pub open spec fn jwt_from_to(bytes: Seq<u8>, start: int, first: int, second: int, end: int) -> bool {
    &&& start + 3 <= first && first + 1 < second && second + 1 < end
    &&& bytes[start] as char == 'e' && bytes[start + 1] as char == 'y' && bytes[start + 2] as char
        == 'J'
    &&& forall|i: int| start <= i < first ==> segment_byte(#[trigger] bytes[i])
    &&& bytes[first] as char == '.'
    &&& forall|i: int| first < i < second ==> segment_byte(#[trigger] bytes[i])
    &&& bytes[second] as char == '.'
    &&& forall|i: int| second < i < end ==> segment_byte(#[trigger] bytes[i])
    &&& end < bytes.len() ==> !segment_byte(bytes[end])
}

/// A host name from `from` up to the last byte of its last label: labels with
/// single dots between them.
pub open spec fn host_from_to(bytes: Seq<u8>, from: int, end: int) -> bool {
    &&& 0 <= from < end <= bytes.len()
    &&& label_byte(bytes[from]) && label_byte(bytes[end - 1])
    &&& forall|i: int|
        from <= i < end ==> label_byte(#[trigger] bytes[i]) || bytes[i] as char == '.' && i + 1
            < end && label_byte(bytes[i + 1])
    &&& end < bytes.len() ==> !label_byte(bytes[end]) && !(bytes[end] as char == '.' && end + 1
        < bytes.len() && label_byte(bytes[end + 1]))
}

/// A dot stands somewhere from `from` up to `end`.
pub open spec fn dot_within(bytes: Seq<u8>, from: int, end: int) -> bool {
    exists|i: int| from <= i < end && (#[trigger] bytes[i]) as char == '.'
}

/// A local part, an `@`, and a host name with a dot in it.
pub open spec fn email_from_to(bytes: Seq<u8>, start: int, at: int, end: int) -> bool {
    &&& start < at < bytes.len()
    &&& forall|i: int| start <= i < at ==> local_byte(#[trigger] bytes[i])
    &&& bytes[at] as char == '@'
    &&& host_from_to(bytes, at + 1, end)
    &&& dot_within(bytes, at + 1, end)
}

/// The digits among `bytes`.
pub open spec fn decimal(bytes: Seq<u8>) -> Seq<u8> {
    bytes.filter(|byte: u8| 48 <= byte <= 57)
}

/// 13 to 19 digits that pass the Luhn check, from the first to the last of them
/// nothing but digits, spaces and hyphens, and no letter, digit or underscore
/// behind.
pub open spec fn card_from_to(bytes: Seq<u8>, start: int, end: int) -> bool {
    let digits = decimal(bytes.subrange(start, end));
    &&& 0 <= start < end <= bytes.len()
    &&& 48 <= bytes[start] <= 57 && 48 <= bytes[end - 1] <= 57
    &&& forall|i: int|
        start <= i < end ==> 48 <= (#[trigger] bytes[i]) <= 57 || bytes[i] as char == ' '
            || bytes[i] as char == '-'
    &&& 13 <= digits.len() <= 19
    &&& places_add(digits, digits.len() as int) % 10 == 0
    &&& end < bytes.len() ==> !letter_or_digit(bytes[end]) && bytes[end] as char != '_'
    &&& begins_word(bytes, start)
}

/// What a search for `pattern` finds at `start` ends at `end`.
pub open spec fn found(pattern: Pattern, bytes: Seq<u8>, start: int, end: int) -> bool {
    &&& 0 <= start < end <= bytes.len()
    &&& begins_word(bytes, start)
    &&& match pattern {
        Pattern::Bearer => exists|token: int| #[trigger] bearer_from_to(bytes, start, token, end),
        Pattern::Jwt => exists|first: int, second: int| #[trigger]
            jwt_from_to(bytes, start, first, second, end),
        Pattern::Email => exists|at: int| #[trigger] email_from_to(bytes, start, at, end),
        Pattern::CardNumber => card_from_to(bytes, start, end) && forall|other: int| #[trigger]
            card_from_to(bytes, start, other) ==> other <= end,
    }
}

proof fn lemma_classes(byte: u8)
    ensures
        in_class(ByteClass::Blank, byte) == blank_byte(byte),
        in_class(ByteClass::Token, byte) == token_byte(byte),
        in_class(ByteClass::Segment, byte) == segment_byte(byte),
        in_class(ByteClass::Local, byte) == local_byte(byte),
        in_class(ByteClass::Label, byte) == label_byte(byte),
        digit(byte as char) == (48 <= byte <= 57),
{
}

/// A run ends where it is said to end.
proof fn lemma_run_is(bytes: Seq<u8>, from: int, to: int, class: ByteClass)
    requires
        0 <= from <= to <= bytes.len(),
        forall|i: int| from <= i < to ==> in_class(class, #[trigger] bytes[i]),
        to < bytes.len() ==> !in_class(class, bytes[to]),
    ensures
        run_end(bytes, from, class) == to,
    decreases to - from,
{
    if from < to {
        lemma_run_is(bytes, from + 1, to, class);
    }
}

proof fn lemma_bearer(bytes: Seq<u8>, start: int, end: int)
    requires
        0 <= start <= bytes.len(),
    ensures
        pattern_end(Pattern::Bearer, bytes, start) == Some(end) <==> found(
            Pattern::Bearer,
            bytes,
            start,
            end,
        ),
{
    reveal_strlit("bearer");
    reveal_strlit("BEARER");
    if pattern_end(Pattern::Bearer, bytes, start) == Some(end) {
        let token = run_end(bytes, start + 6, ByteClass::Blank);
        lemma_run(bytes, start + 6, ByteClass::Blank);
        lemma_run(bytes, token, ByteClass::Token);
        assert forall|k: int| 0 <= k < 6 implies (#[trigger] bytes[start + k]) as char
            == "bearer"@[k] || bytes[start + k] as char == "BEARER"@[k] by {
            assert(lower(bytes[start + k] as char) == "bearer"@[k]);
        }
        assert(bearer_from_to(bytes, start, token, end)) by {
            assert forall|i: int| start + 6 <= i < token implies blank_byte(
                #[trigger] bytes[i],
            ) by {
                assert(in_class(ByteClass::Blank, bytes[i]));
            }
            assert forall|i: int| token <= i < end implies token_byte(#[trigger] bytes[i]) by {
                assert(in_class(ByteClass::Token, bytes[i]));
            }
        }
    }
    if found(Pattern::Bearer, bytes, start, end) {
        let token = choose|token: int| #[trigger] bearer_from_to(bytes, start, token, end);
        assert forall|i: int| start + 6 <= i < token implies in_class(
            ByteClass::Blank,
            #[trigger] bytes[i],
        ) by {
            assert(blank_byte(bytes[i]));
        }
        assert forall|i: int| token <= i < end implies in_class(
            ByteClass::Token,
            #[trigger] bytes[i],
        ) by {
            assert(token_byte(bytes[i]));
        }
        assert(token_byte(bytes[token]));
        lemma_run_is(bytes, start + 6, token, ByteClass::Blank);
        lemma_run_is(bytes, token, end, ByteClass::Token);
        let word = "bearer"@;
        assert forall|k: int| 0 <= k < word.len() implies lower(
            bytes[start + k] as char,
        ) == #[trigger] word[k] by {
            assert(bytes[start + k] as char == "bearer"@[k] || bytes[start + k] as char
                == "BEARER"@[k]);
        }
    }
}

proof fn lemma_jwt(bytes: Seq<u8>, start: int, end: int)
    requires
        0 <= start <= bytes.len(),
    ensures
        pattern_end(Pattern::Jwt, bytes, start) == Some(end) <==> found(
            Pattern::Jwt,
            bytes,
            start,
            end,
        ),
{
    if pattern_end(Pattern::Jwt, bytes, start) == Some(end) {
        let first = run_end(bytes, start, ByteClass::Segment);
        lemma_run(bytes, start, ByteClass::Segment);
        lemma_run(bytes, first + 1, ByteClass::Segment);
        let second = run_end(bytes, first + 1, ByteClass::Segment);
        lemma_run(bytes, second + 1, ByteClass::Segment);
        assert(dotted_segment_end(bytes, first) == Some(second));
        assert(dotted_segment_end(bytes, second) == Some(end));
        if first < start + 3 {
            assert(in_class(ByteClass::Segment, bytes[start]));
            assert(in_class(ByteClass::Segment, bytes[start + 1]));
            assert(in_class(ByteClass::Segment, bytes[start + 2]));
            assert(false);
        }
        assert forall|i: int| start <= i < first implies segment_byte(#[trigger] bytes[i]) by {
            assert(in_class(ByteClass::Segment, bytes[i]));
        }
        assert forall|i: int| first < i < second implies segment_byte(#[trigger] bytes[i]) by {
            assert(in_class(ByteClass::Segment, bytes[i]));
        }
        assert forall|i: int| second < i < end implies segment_byte(#[trigger] bytes[i]) by {
            assert(in_class(ByteClass::Segment, bytes[i]));
        }
        assert(jwt_from_to(bytes, start, first, second, end));
    }
    if found(Pattern::Jwt, bytes, start, end) {
        let (first, second) = choose|first: int, second: int| #[trigger]
            jwt_from_to(bytes, start, first, second, end);
        assert forall|i: int| start <= i < first implies in_class(
            ByteClass::Segment,
            #[trigger] bytes[i],
        ) by {
            assert(segment_byte(bytes[i]));
        }
        assert forall|i: int| first < i < second implies in_class(
            ByteClass::Segment,
            #[trigger] bytes[i],
        ) by {
            assert(segment_byte(bytes[i]));
        }
        assert forall|i: int| second < i < end implies in_class(
            ByteClass::Segment,
            #[trigger] bytes[i],
        ) by {
            assert(segment_byte(bytes[i]));
        }
        lemma_run_is(bytes, start, first, ByteClass::Segment);
        lemma_run_is(bytes, first + 1, second, ByteClass::Segment);
        lemma_run_is(bytes, second + 1, end, ByteClass::Segment);
        assert(dotted_segment_end(bytes, first) == Some(second));
        assert(dotted_segment_end(bytes, second) == Some(end));
    }
}

/// What `host_labels` counts is a host name, with a dot if it counts two.
proof fn lemma_host_found(bytes: Seq<u8>, from: int)
    requires
        0 <= from <= bytes.len(),
    ensures
        ({
            let (labels, end) = host_labels(bytes, from);
            &&& labels > 0 ==> host_from_to(bytes, from, end)
            &&& labels > 0 ==> (labels >= 2 <==> dot_within(bytes, from, end))
            &&& labels == 0 ==> !(from < bytes.len() && label_byte(bytes[from]))
        }),
    decreases bytes.len() - from,
{
    lemma_run(bytes, from, ByteClass::Label);
    let run = run_end(bytes, from, ByteClass::Label);
    assert forall|i: int| from <= i < run implies label_byte(#[trigger] bytes[i]) by {
        assert(in_class(ByteClass::Label, bytes[i]));
    }
    if run > from {
        assert(label_byte(bytes[from]));
        assert(label_byte(bytes[run - 1]));
        assert(!dot_within(bytes, from, run));
        if byte_is(bytes, run, '.') {
            lemma_host_found(bytes, run + 1);
            let (labels, end) = host_labels(bytes, run + 1);
            if labels > 0 {
                assert(label_byte(bytes[run + 1]));
                assert(dot_within(bytes, from, end)) by {
                    assert(bytes[run] as char == '.');
                }
                assert forall|i: int| from <= i < end implies label_byte(#[trigger] bytes[i])
                    || bytes[i] as char == '.' && i + 1 < end && label_byte(bytes[i + 1]) by {
                    if i > run {
                        assert(label_byte(bytes[i]) || bytes[i] as char == '.' && i + 1 < end
                            && label_byte(bytes[i + 1]));
                    }
                }
            }
        }
    }
}

/// There is one host name at a place.
proof fn lemma_host_is(bytes: Seq<u8>, from: int, end: int)
    requires
        host_from_to(bytes, from, end),
    ensures
        host_labels(bytes, from).0 > 0,
        host_labels(bytes, from).1 == end,
    decreases bytes.len() - from,
{
    lemma_run(bytes, from, ByteClass::Label);
    let run = run_end(bytes, from, ByteClass::Label);
    assert(run > from);
    if run > end {
        assert(in_class(ByteClass::Label, bytes[end]));
        assert(false);
    }
    if run < end {
        assert(!label_byte(bytes[run]));
        assert(bytes[run] as char == '.' && label_byte(bytes[run + 1]));
        assert forall|i: int| run + 1 <= i < end implies label_byte(#[trigger] bytes[i]) || bytes[i]
            as char == '.' && i + 1 < end && label_byte(bytes[i + 1]) by {
        }
        lemma_host_is(bytes, run + 1, end);
    } else if byte_is(bytes, run, '.') {
        lemma_host_found(bytes, run + 1);
        if host_labels(bytes, run + 1).0 > 0 {
            assert(label_byte(bytes[run + 1]));
        }
    }
}

proof fn lemma_email(bytes: Seq<u8>, start: int, end: int)
    requires
        0 <= start <= bytes.len(),
    ensures
        pattern_end(Pattern::Email, bytes, start) == Some(end) <==> found(
            Pattern::Email,
            bytes,
            start,
            end,
        ),
{
    if pattern_end(Pattern::Email, bytes, start) == Some(end) {
        let at = run_end(bytes, start, ByteClass::Local);
        lemma_run(bytes, start, ByteClass::Local);
        lemma_host_found(bytes, at + 1);
        assert forall|i: int| start <= i < at implies local_byte(#[trigger] bytes[i]) by {
            assert(in_class(ByteClass::Local, bytes[i]));
        }
        assert(email_from_to(bytes, start, at, end));
    }
    if found(Pattern::Email, bytes, start, end) {
        let at = choose|at: int| #[trigger] email_from_to(bytes, start, at, end);
        assert forall|i: int| start <= i < at implies in_class(
            ByteClass::Local,
            #[trigger] bytes[i],
        ) by {
            assert(local_byte(bytes[i]));
        }
        lemma_run_is(bytes, start, at, ByteClass::Local);
        lemma_host_is(bytes, at + 1, end);
        lemma_host_found(bytes, at + 1);
    }
}

proof fn lemma_decimal(bytes: Seq<u8>)
    ensures
        decimal(bytes) == digits_of(bytes),
        forall|i: int| 0 <= i < decimal(bytes).len() ==> 48 <= #[trigger] decimal(bytes)[i] <= 57,
    decreases bytes.len(),
{
    reveal(Seq::filter);
    if bytes.len() > 0 {
        lemma_decimal(bytes.drop_last());
        lemma_classes(bytes.last());
        let before = decimal(bytes.drop_last());
        assert forall|i: int| 0 <= i < decimal(bytes).len() implies 48 <= #[trigger] decimal(
            bytes,
        )[i] <= 57 by {
            if i < before.len() {
                assert(48 <= before[i] <= 57);
            }
        }
    }
}

proof fn lemma_card_is(bytes: Seq<u8>, start: int, end: int)
    ensures
        card_from_to(bytes, start, end) == card_span(bytes, start, end),
{
    let span = bytes.subrange(start, end);
    lemma_decimal(span);
    law_every_second_digit_is_doubled(decimal(span));
    if card_from_to(bytes, start, end) {
        assert forall|i: int| start <= i < end implies digit(#[trigger] bytes[i] as char)
            || separator(bytes[i]) by {
            lemma_classes(bytes[i]);
        }
        assert(card_span(bytes, start, end));
    }
    if card_span(bytes, start, end) {
        assert forall|i: int| start <= i < end implies 48 <= (#[trigger] bytes[i]) <= 57 || bytes[i]
            as char == ' ' || bytes[i] as char == '-' by {
            assert(digit(bytes[i] as char) || separator(bytes[i]));
        }
        assert(card_from_to(bytes, start, end));
    }
}

proof fn lemma_card(bytes: Seq<u8>, start: int, end: int)
    requires
        0 <= start <= bytes.len(),
    ensures
        pattern_end(Pattern::CardNumber, bytes, start) == Some(end) <==> found(
            Pattern::CardNumber,
            bytes,
            start,
            end,
        ),
{
    lemma_card_number_end(bytes, start);
    assert forall|other: int| card_from_to(bytes, start, other) == #[trigger] card_span(
        bytes,
        start,
        other,
    ) by {
        lemma_card_is(bytes, start, other);
    }
    assert forall|other: int| #[trigger] card_from_to(bytes, start, other) == card_span(
        bytes,
        start,
        other,
    ) by {
        lemma_card_is(bytes, start, other);
    }
}

/// A search finds exactly what has the shape that it looks for: a bearer token,
/// a JWT, an email address, or the longest card number at a place.
pub proof fn law_search_finds(pattern: Pattern, bytes: Seq<u8>, start: int, end: int)
    requires
        0 <= start <= bytes.len(),
    ensures
        pattern_end(pattern, bytes, start) == Some(end) <==> found(pattern, bytes, start, end),
{
    match pattern {
        Pattern::Bearer => lemma_bearer(bytes, start, end),
        Pattern::Jwt => lemma_jwt(bytes, start, end),
        Pattern::CardNumber => lemma_card(bytes, start, end),
        Pattern::Email => lemma_email(bytes, start, end),
    }
}

/// `out` is what is left of `bytes` from `index` on: from the left, what is
/// found becomes `[redacted]` and every other byte is kept.
pub open spec fn left_of(pattern: Pattern, bytes: Seq<u8>, index: int, out: Seq<u8>) -> bool
    decreases bytes.len() - index,
{
    if index >= bytes.len() {
        out.len() == 0
    } else {
        ||| exists|end: int|
            index < end <= bytes.len() && #[trigger] found(pattern, bytes, index, end) && {
                let mark = encode_utf8("[redacted]"@);
                &&& mark.is_prefix_of(out)
                &&& left_of(pattern, bytes, end, out.skip(mark.len() as int))
            }
        ||| {
            &&& forall|end: int| !#[trigger] found(pattern, bytes, index, end)
            &&& out.len() > 0 && out[0] == bytes[index]
            &&& left_of(pattern, bytes, index + 1, out.skip(1))
        }
    }
}

proof fn lemma_left_of(pattern: Pattern, bytes: Seq<u8>, index: int)
    requires
        0 <= index <= bytes.len(),
    ensures
        left_of(pattern, bytes, index, redacted_from(pattern, bytes, index)),
    decreases bytes.len() - index,
{
    if index < bytes.len() {
        let out = redacted_from(pattern, bytes, index);
        lemma_match_bounds(pattern, bytes, index);
        match pattern_end(pattern, bytes, index) {
            Some(end) => {
                law_search_finds(pattern, bytes, index, end);
                lemma_left_of(pattern, bytes, end);
                let mark = encode_utf8("[redacted]"@);
                assert(mark == encode_utf8(REDACTED@));
                assert(out == mark + redacted_from(pattern, bytes, end));
                assert(mark.is_prefix_of(out)) by {
                    assert(out.subrange(0, mark.len() as int) =~= mark);
                }
                assert(out.skip(mark.len() as int) =~= redacted_from(pattern, bytes, end));
            },
            None => {
                assert forall|end: int| !#[trigger] found(pattern, bytes, index, end) by {
                    law_search_finds(pattern, bytes, index, end);
                }
                lemma_left_of(pattern, bytes, index + 1);
                assert(out.skip(1) =~= redacted_from(pattern, bytes, index + 1));
            },
        }
    }
}

/// A search leaves of a text all but what it finds.
pub proof fn law_search_leaves(pattern: Pattern, bytes: Seq<u8>)
    ensures
        left_of(pattern, bytes, 0, redacted(pattern, bytes)),
{
    lemma_left_of(pattern, bytes, 0);
}

/// What is left of a text is what four searches leave of it, one after the
/// other: for bearer tokens, for JWTs, for card numbers and for email addresses.
pub proof fn law_text_is_swept(text: Seq<char>)
    ensures
        exists|first: Seq<u8>, second: Seq<u8>, third: Seq<u8>|
            {
                &&& #[trigger] left_of(Pattern::Bearer, encode_utf8(text), 0, first)
                &&& #[trigger] left_of(Pattern::Jwt, first, 0, second)
                &&& #[trigger] left_of(Pattern::CardNumber, second, 0, third)
                &&& left_of(Pattern::Email, third, 0, encode_utf8(scrubbed_text(text)))
            },
{
    let bytes = encode_utf8(text);
    let first = redacted(Pattern::Bearer, bytes);
    let second = redacted(Pattern::Jwt, first);
    let third = redacted(Pattern::CardNumber, second);
    lemma_swept_valid(text);
    law_search_leaves(Pattern::Bearer, bytes);
    law_search_leaves(Pattern::Jwt, first);
    law_search_leaves(Pattern::CardNumber, second);
    law_search_leaves(Pattern::Email, third);
}

} // verus!
