//! What a sweep leaves of a text.
use crate::ascii::{alphanumeric, digit, lower};
use crate::patterns::{
    all_digits, byte_is, card_number_end, card_span, digits_of, dotted_segment_end, host_labels,
    in_class, lemma_card_number_end, lemma_match_bounds, lemma_run, luhn_valid, pattern_end,
    run_end, separator, word_byte, word_start, ByteClass, Pattern,
};
use crate::scrub::TRUNCATED;
use crate::sweep::{redacted, redacted_from, scrubbed_text, swept, REDACTED};
use crate::text::lemma_boundary_after_ascii;
use vstd::prelude::*;
use vstd::utf8::*;

verus! {

/// The bytes that stand in the place of a match.
pub open spec fn mark() -> Seq<u8> {
    encode_utf8(REDACTED@)
}

/// A mark stands at `index`.
pub open spec fn mark_at(bytes: Seq<u8>, index: int) -> bool {
    0 <= index && index + mark().len() <= bytes.len() && bytes.subrange(
        index,
        index + mark().len(),
    ) == mark()
}

/// The first position from `index` on at which a match starts, or the end.
pub open spec fn next_match(pattern: Pattern, bytes: Seq<u8>, index: int) -> int
    decreases bytes.len() - index,
{
    if 0 <= index < bytes.len() && pattern_end(pattern, bytes, index) is None {
        next_match(pattern, bytes, index + 1)
    } else {
        index
    }
}

proof fn lemma_mark()
    ensures
        mark().len() == 10,
        mark()[0] as char == '[',
        mark()[1] as char == 'r',
        mark()[2] as char == 'e',
        mark()[3] as char == 'd',
        mark()[4] as char == 'a',
        mark()[5] as char == 'c',
        mark()[6] as char == 't',
        mark()[7] as char == 'e',
        mark()[8] as char == 'd',
        mark()[9] as char == ']',
{
    reveal_strlit("[redacted]");
    is_ascii_chars_encode_utf8(REDACTED@);
    assert(REDACTED@[0] == '[');
    assert(REDACTED@[1] == 'r');
    assert(REDACTED@[2] == 'e');
    assert(REDACTED@[3] == 'd');
    assert(REDACTED@[4] == 'a');
    assert(REDACTED@[5] == 'c');
    assert(REDACTED@[6] == 't');
    assert(REDACTED@[7] == 'e');
    assert(REDACTED@[8] == 'd');
    assert(REDACTED@[9] == ']');
}

/// Up to the next match everything is kept; the match becomes a mark, and the
/// search goes on behind it.
pub proof fn law_next_match_is_replaced(pattern: Pattern, bytes: Seq<u8>, index: int)
    requires
        0 <= index <= bytes.len(),
    ensures
        ({
            let next = next_match(pattern, bytes, index);
            &&& index <= next <= bytes.len()
            &&& forall|j: int|
                index <= j < next ==> #[trigger] pattern_end(pattern, bytes, j) is None
            &&& next < bytes.len() ==> pattern_end(pattern, bytes, next) is Some
            &&& redacted_from(pattern, bytes, index) == bytes.subrange(index, next) + (match (
                if next < bytes.len() {
                    pattern_end(pattern, bytes, next)
                } else {
                    None
                }
            ) {
                Some(end) => mark() + redacted_from(pattern, bytes, end),
                None => seq![],
            })
        }),
    decreases bytes.len() - index,
{
    if index < bytes.len() && pattern_end(pattern, bytes, index) is None {
        law_next_match_is_replaced(pattern, bytes, index + 1);
        let next = next_match(pattern, bytes, index);
        assert(seq![bytes[index]] + bytes.subrange(index + 1, next) =~= bytes.subrange(index, next));
        assert(redacted_from(pattern, bytes, index) =~= seq![bytes[index]] + redacted_from(
            pattern,
            bytes,
            index + 1,
        ));
    } else {
        assert(bytes.subrange(index, index) =~= seq![]);
    }
}

/// From `a` on `left` is for `k` bytes what `right` is from `b` on. There either
/// both end, or `left` goes on with an opening bracket and `right` with a word
/// start.
pub open spec fn same_until_bracket(
    left: Seq<u8>,
    a: int,
    right: Seq<u8>,
    b: int,
    k: int,
) -> bool {
    &&& 0 <= a && 0 <= b && 0 <= k && a + k <= left.len() && b + k <= right.len()
    &&& forall|i: int| 0 <= i < k ==> #[trigger] left[a + i] == right[b + i]
    &&& a + k == left.len() ==> b + k == right.len()
    &&& a + k < left.len() ==> left[a + k] as char == '[' && b + k < right.len() && word_start(
        right,
        b + k,
    )
}

proof fn lemma_same_run(
    left: Seq<u8>,
    a: int,
    right: Seq<u8>,
    b: int,
    k: int,
    i: int,
    class: ByteClass,
)
    requires
        same_until_bracket(left, a, right, b, k),
        0 <= i <= k,
    ensures
        i <= run_end(left, a + i, class) - a <= k,
        i <= run_end(right, b + i, class) - b,
        run_end(left, a + i, class) - a < k ==> run_end(right, b + i, class) - b == run_end(
            left,
            a + i,
            class,
        ) - a,
        run_end(left, a + i, class) - a == k ==> run_end(right, b + i, class) - b >= k,
    decreases k - i,
{
    lemma_run(left, a + i, class);
    lemma_run(right, b + i, class);
    if i < k {
        assert(left[a + i] == right[b + i]);
        if in_class(class, left[a + i]) {
            lemma_same_run(left, a, right, b, k, i + 1, class);
        }
    }
}

proof fn lemma_same_labels(left: Seq<u8>, a: int, right: Seq<u8>, b: int, k: int, i: int)
    requires
        same_until_bracket(left, a, right, b, k),
        0 <= i <= k,
    ensures
        host_labels(left, a + i).0 <= host_labels(right, b + i).0,
    decreases k - i,
{
    lemma_same_run(left, a, right, b, k, i, ByteClass::Label);
    let end = run_end(left, a + i, ByteClass::Label);
    if end > a + i && byte_is(left, end, '.') {
        assert(end - a < k);
        assert(left[a + (end - a)] == right[b + (end - a)]);
        lemma_same_labels(left, a, right, b, k, end - a + 1);
    }
}

proof fn lemma_same_bearer(left: Seq<u8>, a: int, right: Seq<u8>, b: int, k: int)
    requires
        same_until_bracket(left, a, right, b, k),
        word_start(left, a) ==> word_start(right, b),
        pattern_end(Pattern::Bearer, left, a) is Some,
    ensures
        pattern_end(Pattern::Bearer, right, b) is Some,
{
    reveal_strlit("bearer");
    let word = "bearer"@;
    if k < 6 {
        assert(lower(left[a + k] as char) == word[k]);
        assert(false);
    }
    assert forall|i: int| 0 <= i < word.len() implies lower(right[b + i] as char)
        == #[trigger] word[i] by {
        assert(left[a + i] == right[b + i]);
    }
    lemma_same_run(left, a, right, b, k, 6, ByteClass::Blank);
    let token = run_end(left, a + 6, ByteClass::Blank);
    lemma_same_run(left, a, right, b, k, token - a, ByteClass::Token);
}

proof fn lemma_same_jwt(left: Seq<u8>, a: int, right: Seq<u8>, b: int, k: int)
    requires
        same_until_bracket(left, a, right, b, k),
        word_start(left, a) ==> word_start(right, b),
        pattern_end(Pattern::Jwt, left, a) is Some,
    ensures
        pattern_end(Pattern::Jwt, right, b) is Some,
{
    assert(k >= 3);
    assert(left[a + 0] == right[b + 0]);
    assert(left[a + 1] == right[b + 1]);
    assert(left[a + 2] == right[b + 2]);
    lemma_same_run(left, a, right, b, k, 0, ByteClass::Segment);
    let first = run_end(left, a, ByteClass::Segment);
    assert(first - a < k);
    assert(left[a + (first - a)] == right[b + (first - a)]);
    lemma_same_run(left, a, right, b, k, first - a + 1, ByteClass::Segment);
    let second = run_end(left, first + 1, ByteClass::Segment);
    assert(dotted_segment_end(left, first) == Some(second));
    assert(second - a < k);
    assert(left[a + (second - a)] == right[b + (second - a)]);
    lemma_same_run(left, a, right, b, k, second - a + 1, ByteClass::Segment);
}

proof fn lemma_same_email(left: Seq<u8>, a: int, right: Seq<u8>, b: int, k: int)
    requires
        same_until_bracket(left, a, right, b, k),
        word_start(left, a) ==> word_start(right, b),
        pattern_end(Pattern::Email, left, a) is Some,
    ensures
        pattern_end(Pattern::Email, right, b) is Some,
{
    lemma_same_run(left, a, right, b, k, 0, ByteClass::Local);
    let at = run_end(left, a, ByteClass::Local);
    assert(at - a < k);
    assert(left[a + (at - a)] == right[b + (at - a)]);
    lemma_same_labels(left, a, right, b, k, at - a + 1);
}

proof fn lemma_same_card_number(left: Seq<u8>, a: int, right: Seq<u8>, b: int, k: int)
    requires
        same_until_bracket(left, a, right, b, k),
        word_start(left, a) ==> word_start(right, b),
        pattern_end(Pattern::CardNumber, left, a) is Some,
    ensures
        pattern_end(Pattern::CardNumber, right, b) is Some,
{
    lemma_card_number_end(left, a);
    lemma_card_number_end(right, b);
    let end = card_number_end(left, a)->Some_0;
    let length = end - a;
    if length > k {
        assert(digit(left[a + k] as char) || separator(left[a + k]));
        assert(false);
    }
    assert(left.subrange(a, end) =~= right.subrange(b, b + length)) by {
        assert forall|i: int| 0 <= i < length implies left.subrange(a, end)[i] == right.subrange(
            b,
            b + length,
        )[i] by {
            assert(left[a + i] == right[b + i]);
        }
    }
    assert forall|i: int| b <= i < b + length implies digit(#[trigger] right[i] as char)
        || separator(right[i]) by {
        assert(left[a + (i - b)] == right[b + (i - b)]);
        assert(digit(left[a + (i - b)] as char) || separator(left[a + (i - b)]));
    }
    assert(left[a + 0] == right[b + 0]);
    assert(left[a + (length - 1)] == right[b + (length - 1)]);
    if length < k {
        assert(left[a + length] == right[b + length]);
    }
    assert(card_span(right, b, b + length));
}

/// A match starts at a word start.
proof fn lemma_match_starts(pattern: Pattern, bytes: Seq<u8>, start: int)
    ensures
        pattern_end(pattern, bytes, start) is Some ==> word_start(bytes, start),
{
    lemma_card_number_end(bytes, start);
}

/// Behind a match no letter and no digit follows.
proof fn lemma_match_stops(pattern: Pattern, bytes: Seq<u8>, start: int)
    requires
        0 <= start <= bytes.len(),
    ensures
        pattern_end(pattern, bytes, start) matches Some(end) ==> end < bytes.len()
            ==> !alphanumeric(bytes[end] as char),
{
    if let Some(end) = pattern_end(pattern, bytes, start) {
        match pattern {
            Pattern::Bearer => {
                reveal_strlit("bearer");
                let token = run_end(bytes, start + 6, ByteClass::Blank);
                lemma_run(bytes, start + 6, ByteClass::Blank);
                lemma_run(bytes, token, ByteClass::Token);
            },
            Pattern::Jwt => {
                let first = run_end(bytes, start, ByteClass::Segment);
                lemma_run(bytes, start, ByteClass::Segment);
                lemma_run(bytes, first + 1, ByteClass::Segment);
                let second = run_end(bytes, first + 1, ByteClass::Segment);
                lemma_run(bytes, second + 1, ByteClass::Segment);
            },
            Pattern::CardNumber => {
                lemma_card_number_end(bytes, start);
            },
            Pattern::Email => {
                lemma_run(bytes, start, ByteClass::Local);
                lemma_labels_stop(bytes, run_end(bytes, start, ByteClass::Local) + 1);
            },
        }
    }
}

proof fn lemma_labels_stop(bytes: Seq<u8>, index: int)
    requires
        0 <= index <= bytes.len(),
    ensures
        ({
            let (labels, end) = host_labels(bytes, index);
            labels > 0 && end < bytes.len() ==> !in_class(ByteClass::Label, bytes[end])
        }),
    decreases bytes.len() - index,
{
    lemma_run(bytes, index, ByteClass::Label);
    let end = run_end(bytes, index, ByteClass::Label);
    if end > index && byte_is(bytes, end, '.') {
        lemma_labels_stop(bytes, end + 1);
    }
}

/// No match starts inside a mark.
proof fn lemma_mark_is_clean(pattern: Pattern, bytes: Seq<u8>, at: int, start: int)
    requires
        mark_at(bytes, at),
        at <= start < at + mark().len(),
    ensures
        pattern_end(pattern, bytes, start) is None,
{
    lemma_mark();
    lemma_card_number_end(bytes, start);
    assert forall|i: int| 0 <= i < 10 implies #[trigger] bytes[at + i] == mark()[i] by {
        assert(bytes.subrange(at, at + mark().len())[i] == bytes[at + i]);
    }
    assert(bytes[at + 0] == mark()[0]);
    assert(bytes[at + 1] == mark()[1]);
    assert(bytes[at + 9] == mark()[9]);
    assert(bytes[at + (start - at)] == mark()[start - at]);
    if start == at {
        reveal_strlit("bearer");
        assert("bearer"@[0] == 'b');
        assert(lower(bytes[start + 0] as char) != 'b');
    } else if start == at + 1 {
        reveal_strlit("bearer");
        assert("bearer"@[0] == 'b');
        assert(lower(bytes[start + 0] as char) != 'b');
        lemma_run(bytes, start, ByteClass::Local);
        let end = run_end(bytes, start, ByteClass::Local);
        if end > at + 9 {
            assert(in_class(ByteClass::Local, bytes[at + 9]));
        }
        assert(bytes[at + (end - at)] == mark()[end - at]);
    } else {
        assert(bytes[at + (start - 1 - at)] == mark()[start - 1 - at]);
        assert(word_byte(bytes[start - 1]));
    }
}

/// A mark ends right before `start`.
pub open spec fn behind_mark(bytes: Seq<u8>, start: int) -> bool {
    mark_at(bytes, start - mark().len())
}

/// The matches that a sweep can leave: an email address that begins where a
/// mark ends.
pub open spec fn left_over(pattern: Pattern, bytes: Seq<u8>, start: int) -> bool {
    pattern is Email && behind_mark(bytes, start)
}

/// An email address begins only where a mark ends.
pub open spec fn emails_behind_marks(bytes: Seq<u8>) -> bool {
    forall|start: int|
        0 <= start < bytes.len() && (#[trigger] pattern_end(
            Pattern::Email,
            bytes,
            start,
        )) is Some ==> behind_mark(bytes, start)
}

/// Every match of `pattern` from `from` on is one that a sweep can leave.
#[verifier::opaque]
pub open spec fn only_left_over(pattern: Pattern, bytes: Seq<u8>, from: int) -> bool {
    forall|start: int|
        from <= start < bytes.len() && (#[trigger] pattern_end(pattern, bytes, start)) is Some
            ==> left_over(pattern, bytes, start)
}

/// `out` goes on at `from` as the search for `search` goes on at `index`: with
/// the bytes up to the next match, and there with a mark or the end.
pub open spec fn copied(
    search: Pattern,
    bytes: Seq<u8>,
    index: int,
    out: Seq<u8>,
    from: int,
) -> bool {
    let next = next_match(search, bytes, index);
    let there = from + next - index;
    &&& 0 <= index <= next <= bytes.len()
    &&& 0 <= from && there <= out.len()
    &&& out.subrange(from, there) == bytes.subrange(index, next)
    &&& if next < bytes.len() {
        mark_at(out, there)
    } else {
        there == out.len()
    }
}

/// A copied position sees what the position sees that it was copied from.
proof fn lemma_copied(
    search: Pattern,
    bytes: Seq<u8>,
    index: int,
    out: Seq<u8>,
    from: int,
    start: int,
)
    requires
        copied(search, bytes, index, out, from),
        from <= start < from + next_match(search, bytes, index) - index,
    ensures
        ({
            let next = next_match(search, bytes, index);
            let j = index + start - from;
            &&& same_until_bracket(out, start, bytes, j, next - j)
            &&& out[start] == bytes[j]
            &&& start > from ==> out[start - 1] == bytes[j - 1]
            &&& pattern_end(search, bytes, j) is None
        }),
{
    lemma_mark();
    law_next_match_is_replaced(search, bytes, index);
    let next = next_match(search, bytes, index);
    let there = from + next - index;
    assert forall|i: int| from <= i < there implies #[trigger] out[i] == bytes[index + i - from] by {
        assert(out.subrange(from, there)[i - from] == out[i]);
    }
    if next < bytes.len() {
        assert(out.subrange(there, there + mark().len())[0] == out[there]);
        lemma_match_starts(search, bytes, next);
    }
}

/// One match of `pattern` in what the search for `search` left, at a position
/// that was copied.
proof fn lemma_copied_match(
    search: Pattern,
    pattern: Pattern,
    bytes: Seq<u8>,
    index: int,
    out: Seq<u8>,
    from: int,
    start: int,
)
    requires
        copied(search, bytes, index, out, from),
        from <= start < from + next_match(search, bytes, index) - index,
        search == pattern || only_left_over(pattern, bytes, 0),
        pattern is Email ==> search is Email,
        index == 0 && from == 0 || behind_mark(out, from) && !alphanumeric(bytes[index] as char),
        pattern_end(pattern, out, start) is Some,
    ensures
        left_over(pattern, out, start),
{
    lemma_copied(search, bytes, index, out, from, start);
    lemma_match_bounds(pattern, out, start);
    let next = next_match(search, bytes, index);
    let j = index + start - from;
    let k = next - j;
    if start == from && !(index == 0 && from == 0) {
        if pattern is Bearer {
            reveal_strlit("bearer");
            assert(lower(out[start + 0] as char) == "bearer"@[0]);
        }
        lemma_card_number_end(out, start);
    } else {
        match pattern {
            Pattern::Bearer => {
                lemma_same_bearer(out, start, bytes, j, k);
            },
            Pattern::Jwt => {
                lemma_same_jwt(out, start, bytes, j, k);
            },
            Pattern::Email => {
                lemma_same_email(out, start, bytes, j, k);
            },
            Pattern::CardNumber => {
                lemma_same_card_number(out, start, bytes, j, k);
            },
        }
        if pattern != search {
            lemma_left_over_at(pattern, bytes, j);
        }
    }
}

/// One match of those that a sweep can leave.
proof fn lemma_left_over_at(pattern: Pattern, bytes: Seq<u8>, start: int)
    requires
        only_left_over(pattern, bytes, 0),
        0 <= start < bytes.len(),
        pattern_end(pattern, bytes, start) is Some,
    ensures
        left_over(pattern, bytes, start),
{
    reveal(only_left_over);
}

/// The stretch up to the next mark, and the mark.
proof fn lemma_search_step(
    search: Pattern,
    pattern: Pattern,
    bytes: Seq<u8>,
    index: int,
    out: Seq<u8>,
    from: int,
)
    requires
        copied(search, bytes, index, out, from),
        search == pattern || only_left_over(pattern, bytes, 0),
        pattern is Email ==> search is Email,
        index == 0 && from == 0 || behind_mark(out, from) && (index < bytes.len()
            ==> !alphanumeric(bytes[index] as char)),
        ({
            let next = next_match(search, bytes, index);
            next < bytes.len() ==> only_left_over(
                pattern,
                out,
                from + next - index + mark().len(),
            )
        }),
    ensures
        only_left_over(pattern, out, from),
{
    reveal(only_left_over);
    let there = from + next_match(search, bytes, index) - index;
    assert forall|start: int|
        from <= start < out.len() && (#[trigger] pattern_end(
            pattern,
            out,
            start,
        )) is Some implies left_over(pattern, out, start) by {
        if start < there {
            lemma_copied_match(search, pattern, bytes, index, out, from, start);
        } else if start < there + mark().len() {
            lemma_mark_is_clean(pattern, out, there, start);
        }
    }
}

/// What the search for `search` leaves from `index` on, when `done` came before
/// it.
proof fn lemma_search_leaves(
    search: Pattern,
    pattern: Pattern,
    bytes: Seq<u8>,
    index: int,
    done: Seq<u8>,
)
    requires
        0 <= index <= bytes.len(),
        search == pattern || only_left_over(pattern, bytes, 0),
        pattern is Email ==> search is Email,
        index == 0 && done.len() == 0 || behind_mark(done, done.len() as int) && (index
            < bytes.len() ==> !alphanumeric(bytes[index] as char)),
    ensures
        only_left_over(
            pattern,
            done + redacted_from(search, bytes, index),
            done.len() as int,
        ),
    decreases bytes.len() - index,
{
    law_next_match_is_replaced(search, bytes, index);
    let next = next_match(search, bytes, index);
    let kept = bytes.subrange(index, next);
    let out = done + redacted_from(search, bytes, index);
    if next < bytes.len() {
        let end = pattern_end(search, bytes, next)->Some_0;
        lemma_match_bounds(search, bytes, next);
        lemma_match_stops(search, bytes, next);
        lemma_parts(done, kept, mark(), redacted_from(search, bytes, end));
        lemma_search_leaves(search, pattern, bytes, end, done + kept + mark());
    } else {
        lemma_parts(done, kept, seq![], seq![]);
    }
    lemma_search_step(search, pattern, bytes, index, out, done.len() as int);
}

/// Where the parts of a text stand in it.
proof fn lemma_parts(done: Seq<u8>, kept: Seq<u8>, there: Seq<u8>, rest: Seq<u8>)
    ensures
        ({
            let out = done + (kept + (there + rest));
            let from = done.len() as int;
            let at = from + kept.len();
            &&& out == done + kept + there + rest
            &&& out.subrange(from, at) == kept
            &&& out.subrange(at, at + there.len()) == there
            &&& (done + kept + there).subrange(at, at + there.len()) == there
            &&& done + (kept + seq![]) == done + kept
            &&& (done + kept).subrange(from, at) == kept
            &&& forall|i: int|
                0 <= i <= from ==> #[trigger] out.subrange(i, from) == done.subrange(i, from)
            &&& forall|i: int|
                0 <= i <= from ==> #[trigger] (done + kept).subrange(i, from) == done.subrange(
                    i,
                    from,
                )
        }),
{
    let out = done + (kept + (there + rest));
    let from = done.len() as int;
    let at = from + kept.len();
    assert(out =~= done + kept + there + rest);
    assert(out.subrange(from, at) =~= kept);
    assert(out.subrange(at, at + there.len()) =~= there);
    assert((done + kept + there).subrange(at, at + there.len()) =~= there);
    assert(done + (kept + seq![]) =~= done + kept);
    assert((done + kept).subrange(from, at) =~= kept);
    assert forall|i: int| 0 <= i <= from implies #[trigger] out.subrange(i, from) == done.subrange(
        i,
        from,
    ) by {
        assert(out.subrange(i, from) =~= done.subrange(i, from));
    }
    assert forall|i: int| 0 <= i <= from implies #[trigger] (done + kept).subrange(i, from)
        == done.subrange(i, from) by {
        assert((done + kept).subrange(i, from) =~= done.subrange(i, from));
    }
}

/// What a search leaves of its own pattern, and of those that were searched for
/// before.
proof fn lemma_search(search: Pattern, pattern: Pattern, bytes: Seq<u8>)
    requires
        search == pattern || only_left_over(pattern, bytes, 0),
        pattern is Email ==> search is Email,
    ensures
        only_left_over(pattern, redacted(search, bytes), 0),
{
    lemma_search_leaves(search, pattern, bytes, 0, seq![]);
    assert(seq![] + redacted(search, bytes) =~= redacted(search, bytes));
}

/// What a search leaves from a character boundary on is UTF-8.
proof fn lemma_redacted_valid(pattern: Pattern, bytes: Seq<u8>, index: int)
    requires
        0 <= index <= bytes.len(),
        valid_utf8(bytes.skip(index)),
    ensures
        valid_utf8(redacted_from(pattern, bytes, index)),
    decreases bytes.len() - index,
{
    law_next_match_is_replaced(pattern, bytes, index);
    let next = next_match(pattern, bytes, index);
    let rest = bytes.skip(index);
    if next < bytes.len() {
        lemma_match_bounds(pattern, bytes, next);
        let end = pattern_end(pattern, bytes, next)->Some_0;
        assert(rest[next - index] == bytes[next]);
        assert(rest[end - 1 - index] == bytes[end - 1]);
        is_char_boundary_iff_is_leading_byte(rest, next - index);
        valid_utf8_split(rest, next - index);
        lemma_boundary_after_ascii(rest, end - index);
        valid_utf8_split(rest, end - index);
        assert(rest.subrange(0, next - index) =~= bytes.subrange(index, next));
        assert(rest.subrange(end - index, rest.len() as int) =~= bytes.skip(end));
        lemma_redacted_valid(pattern, bytes, end);
        encode_utf8_valid_utf8(REDACTED@);
        valid_utf8_concat(mark(), redacted_from(pattern, bytes, end));
        valid_utf8_concat(bytes.subrange(index, next), mark() + redacted_from(pattern, bytes, end));
    } else {
        assert(redacted_from(pattern, bytes, index) =~= rest);
    }
}

/// What a sweep leaves of a text is a text.
pub proof fn lemma_swept_valid(text: Seq<char>)
    ensures
        encode_utf8(scrubbed_text(text)) == swept(encode_utf8(text)),
{
    let bytes = encode_utf8(text);
    let first = redacted(Pattern::Bearer, bytes);
    let second = redacted(Pattern::Jwt, first);
    let third = redacted(Pattern::CardNumber, second);
    encode_utf8_valid_utf8(text);
    assert(bytes.skip(0) =~= bytes);
    lemma_redacted_valid(Pattern::Bearer, bytes, 0);
    assert(first.skip(0) =~= first);
    lemma_redacted_valid(Pattern::Jwt, first, 0);
    assert(second.skip(0) =~= second);
    lemma_redacted_valid(Pattern::CardNumber, second, 0);
    assert(third.skip(0) =~= third);
    lemma_redacted_valid(Pattern::Email, third, 0);
    decode_utf8_encode_utf8(swept(bytes));
}

/// In the text that a sweep leaves there is no bearer token, no JWT and no card
/// number, and an email address in it begins right behind a `[redacted]`.
pub proof fn law_swept_text(text: Seq<char>)
    ensures
        ({
            let left = swept(encode_utf8(text));
            &&& encode_utf8(scrubbed_text(text)) == left
            &&& free_of(Pattern::Bearer, left)
            &&& free_of(Pattern::Jwt, left)
            &&& free_of(Pattern::CardNumber, left)
            &&& forall|start: int, end: int| !#[trigger] card_span(left, start, end)
            &&& emails_behind_marks(left)
        }),
{
    let bytes = encode_utf8(text);
    let first = redacted(Pattern::Bearer, bytes);
    let second = redacted(Pattern::Jwt, first);
    let third = redacted(Pattern::CardNumber, second);
    reveal(only_left_over);
    lemma_swept_valid(text);
    lemma_search(Pattern::Bearer, Pattern::Bearer, bytes);
    lemma_search(Pattern::Jwt, Pattern::Bearer, first);
    lemma_search(Pattern::Jwt, Pattern::Jwt, first);
    lemma_search(Pattern::CardNumber, Pattern::Bearer, second);
    lemma_search(Pattern::CardNumber, Pattern::Jwt, second);
    lemma_search(Pattern::CardNumber, Pattern::CardNumber, second);
    lemma_search(Pattern::Email, Pattern::Bearer, third);
    lemma_search(Pattern::Email, Pattern::Jwt, third);
    lemma_search(Pattern::Email, Pattern::CardNumber, third);
    lemma_search(Pattern::Email, Pattern::Email, third);
    let left = swept(bytes);
    assert forall|start: int, end: int| !#[trigger] card_span(left, start, end) by {
        lemma_card_number_end(left, start);
        if card_span(left, start, end) {
            assert(pattern_end(Pattern::CardNumber, left, start) is Some);
        }
    }
}

/// No match of `pattern` starts anywhere.
pub open spec fn free_of(pattern: Pattern, bytes: Seq<u8>) -> bool {
    forall|start: int|
        0 <= start < bytes.len() ==> (#[trigger] pattern_end(pattern, bytes, start)) is None
}

proof fn lemma_free_is_kept(pattern: Pattern, bytes: Seq<u8>)
    requires
        free_of(pattern, bytes),
    ensures
        redacted(pattern, bytes) == bytes,
{
    law_next_match_is_replaced(pattern, bytes, 0);
    assert(next_match(pattern, bytes, 0) == bytes.len());
    assert(redacted(pattern, bytes) =~= bytes);
}

/// A text in which nothing is found comes out as it went in.
pub proof fn law_clean_text_is_kept(text: Seq<char>)
    requires
        free_of(Pattern::Bearer, encode_utf8(text)),
        free_of(Pattern::Jwt, encode_utf8(text)),
        free_of(Pattern::CardNumber, encode_utf8(text)),
        free_of(Pattern::Email, encode_utf8(text)),
    ensures
        scrubbed_text(text) == text,
{
    let bytes = encode_utf8(text);
    lemma_free_is_kept(Pattern::Bearer, bytes);
    lemma_free_is_kept(Pattern::Jwt, bytes);
    lemma_free_is_kept(Pattern::CardNumber, bytes);
    lemma_free_is_kept(Pattern::Email, bytes);
    encode_utf8_decode_utf8(text);
}

proof fn lemma_mark_is_kept(pattern: Pattern)
    ensures
        redacted(pattern, mark()) == mark(),
{
    assert(mark().subrange(0, mark().len() as int) =~= mark());
    assert forall|start: int| 0 <= start < mark().len() implies (#[trigger] pattern_end(
        pattern,
        mark(),
        start,
    )) is None by {
        lemma_mark_is_clean(pattern, mark(), 0, start);
    }
    lemma_free_is_kept(pattern, mark());
}

proof fn lemma_whole_match(pattern: Pattern, bytes: Seq<u8>)
    requires
        bytes.len() > 0,
        pattern_end(pattern, bytes, 0) == Some(bytes.len() as int),
    ensures
        redacted(pattern, bytes) == mark(),
{
    law_next_match_is_replaced(pattern, bytes, 0);
    assert(next_match(pattern, bytes, 0) == 0);
    assert(redacted_from(pattern, bytes, bytes.len() as int) =~= seq![]);
    assert(redacted(pattern, bytes) =~= mark());
}

/// Without a blank there is no bearer token.
proof fn lemma_no_blank_no_bearer(bytes: Seq<u8>)
    requires
        forall|i: int| 0 <= i < bytes.len() ==> !in_class(ByteClass::Blank, #[trigger] bytes[i]),
    ensures
        free_of(Pattern::Bearer, bytes),
{
    reveal_strlit("bearer");
    assert forall|start: int| 0 <= start < bytes.len() implies (#[trigger] pattern_end(
        Pattern::Bearer,
        bytes,
        start,
    )) is None by {
        if start + 6 <= bytes.len() {
            lemma_run(bytes, start + 6, ByteClass::Blank);
            if run_end(bytes, start + 6, ByteClass::Blank) > start + 6 {
                assert(in_class(ByteClass::Blank, bytes[start + 6]));
            }
        }
    }
}

/// A host name is made of labels and dots.
proof fn lemma_host_bytes(bytes: Seq<u8>, index: int)
    requires
        0 <= index <= bytes.len(),
    ensures
        ({
            let end = host_labels(bytes, index).1;
            forall|i: int|
                index <= i < end ==> in_class(ByteClass::Label, #[trigger] bytes[i]) || bytes[i]
                    as char == '.'
        }),
    decreases bytes.len() - index,
{
    lemma_run(bytes, index, ByteClass::Label);
    let end = run_end(bytes, index, ByteClass::Label);
    if end > index && byte_is(bytes, end, '.') {
        lemma_host_bytes(bytes, end + 1);
    }
}

/// A text that is a bearer token, a JWT, a card number or an email address from
/// its first to its last character comes out as `[redacted]`. Of an email
/// address this holds where no JWT and no card number is part of it: these are
/// searched for before.
pub proof fn law_secret_text_is_redacted(pattern: Pattern, text: Seq<char>)
    requires
        pattern_end(pattern, encode_utf8(text), 0) == Some(encode_utf8(text).len() as int),
        pattern is Email ==> free_of(Pattern::Jwt, encode_utf8(text)) && free_of(
            Pattern::CardNumber,
            encode_utf8(text),
        ),
    ensures
        scrubbed_text(text) == REDACTED@,
{
    let bytes = encode_utf8(text);
    lemma_match_bounds(pattern, bytes, 0);
    lemma_whole_match(pattern, bytes);
    lemma_mark_is_kept(Pattern::Jwt);
    lemma_mark_is_kept(Pattern::CardNumber);
    lemma_mark_is_kept(Pattern::Email);
    match pattern {
        Pattern::Bearer => {},
        Pattern::Jwt => {
            let first = run_end(bytes, 0, ByteClass::Segment);
            lemma_run(bytes, 0, ByteClass::Segment);
            lemma_run(bytes, first + 1, ByteClass::Segment);
            let second = run_end(bytes, first + 1, ByteClass::Segment);
            lemma_run(bytes, second + 1, ByteClass::Segment);
            assert forall|i: int| 0 <= i < bytes.len() implies !in_class(
                ByteClass::Blank,
                #[trigger] bytes[i],
            ) by {
                assert(in_class(ByteClass::Segment, bytes[i]) || bytes[i] as char == '.');
            }
            lemma_no_blank_no_bearer(bytes);
            lemma_free_is_kept(Pattern::Bearer, bytes);
        },
        Pattern::CardNumber => {
            lemma_card_number_end(bytes, 0);
            lemma_card_text_is_free(bytes);
            lemma_free_is_kept(Pattern::Bearer, bytes);
            lemma_free_is_kept(Pattern::Jwt, bytes);
        },
        Pattern::Email => {
            let at = run_end(bytes, 0, ByteClass::Local);
            lemma_run(bytes, 0, ByteClass::Local);
            lemma_host_bytes(bytes, at + 1);
            assert forall|i: int| 0 <= i < bytes.len() implies !in_class(
                ByteClass::Blank,
                #[trigger] bytes[i],
            ) by {
                if i < at {
                    assert(in_class(ByteClass::Local, bytes[i]));
                } else if i > at {
                    assert(in_class(ByteClass::Label, bytes[i]) || bytes[i] as char == '.');
                }
            }
            lemma_no_blank_no_bearer(bytes);
            lemma_free_is_kept(Pattern::Bearer, bytes);
            lemma_free_is_kept(Pattern::Jwt, bytes);
            lemma_free_is_kept(Pattern::CardNumber, bytes);
        },
    }
    encode_utf8_decode_utf8(REDACTED@);
}

/// Where there are only digits and separators there is no bearer token, no JWT
/// and no email address.
proof fn lemma_card_text_is_free(bytes: Seq<u8>)
    requires
        forall|i: int|
            0 <= i < bytes.len() ==> digit(#[trigger] bytes[i] as char) || separator(bytes[i]),
    ensures
        free_of(Pattern::Bearer, bytes),
        free_of(Pattern::Jwt, bytes),
        free_of(Pattern::Email, bytes),
{
    reveal_strlit("bearer");
    assert forall|start: int| 0 <= start < bytes.len() implies (#[trigger] pattern_end(
        Pattern::Bearer,
        bytes,
        start,
    )) is None by {
        assert(digit(bytes[start] as char) || separator(bytes[start]));
        assert("bearer"@[0] == 'b');
        assert(lower(bytes[start + 0] as char) != "bearer"@[0]);
    }
    assert forall|start: int| 0 <= start < bytes.len() implies (#[trigger] pattern_end(
        Pattern::Jwt,
        bytes,
        start,
    )) is None by {
        assert(digit(bytes[start] as char) || separator(bytes[start]));
    }
    assert forall|start: int| 0 <= start < bytes.len() implies (#[trigger] pattern_end(
        Pattern::Email,
        bytes,
        start,
    )) is None by {
        lemma_run(bytes, start, ByteClass::Local);
        let at = run_end(bytes, start, ByteClass::Local);
        if at < bytes.len() {
            assert(digit(bytes[at] as char) || separator(bytes[at]));
        }
    }
}

/// Where there are only digits, all of them are digits of the span.
proof fn lemma_all_are_digits(bytes: Seq<u8>)
    requires
        all_digits(bytes),
    ensures
        digits_of(bytes) == bytes,
    decreases bytes.len(),
{
    reveal(Seq::filter);
    if bytes.len() > 0 {
        let rest = bytes.drop_last();
        assert(digit(bytes[bytes.len() - 1] as char));
        assert forall|i: int| 0 <= i < rest.len() implies digit(#[trigger] rest[i] as char) by {
            assert(digit(bytes[i] as char));
        }
        lemma_all_are_digits(rest);
        assert(rest.push(bytes.last()) =~= bytes);
    }
}

/// Where there are only digits, only all of them can be a card number.
proof fn lemma_card_of_digits(bytes: Seq<u8>, start: int, end: int)
    requires
        all_digits(bytes),
        card_span(bytes, start, end),
    ensures
        start == 0,
        end == bytes.len(),
        13 <= bytes.len() <= 19,
        luhn_valid(bytes),
{
    if start > 0 {
        assert(digit(bytes[start - 1] as char));
    }
    if end < bytes.len() {
        assert(digit(bytes[end] as char));
    }
    assert(bytes.subrange(0, bytes.len() as int) =~= bytes);
    lemma_all_are_digits(bytes);
}

/// A number in full comes out as `[redacted]` if it has 13 to 19 digits that
/// pass the Luhn check. Any other, such as an order number or a timestamp, comes
/// out as it went in.
#[verifier::rlimit(30)]
pub proof fn law_only_card_numbers_are_redacted(text: Seq<char>)
    requires
        forall|i: int| 0 <= i < text.len() ==> digit(#[trigger] text[i]),
    ensures
        scrubbed_text(text) == if 13 <= text.len() <= 19 && luhn_valid(encode_utf8(text)) {
            REDACTED@
        } else {
            text
        },
{
    let bytes = encode_utf8(text);
    assert forall|i: int| 0 <= i < text.len() implies '\0' <= #[trigger] text[i] <= '\u{7f}' by {
        assert(digit(text[i]));
    }
    is_ascii_chars_encode_utf8(text);
    assert forall|i: int| 0 <= i < bytes.len() implies digit(#[trigger] bytes[i] as char) by {
        assert(digit(text[i]));
        assert(bytes[i] as char == text[i]);
    }
    if 13 <= text.len() <= 19 && luhn_valid(bytes) {
        lemma_all_are_digits(bytes);
        assert(bytes.subrange(0, bytes.len() as int) =~= bytes);
        assert(card_span(bytes, 0, bytes.len() as int));
        lemma_card_number_end(bytes, 0);
        law_secret_text_is_redacted(Pattern::CardNumber, text);
    } else {
        lemma_card_text_is_free(bytes);
        assert forall|start: int| 0 <= start < bytes.len() implies (#[trigger] pattern_end(
            Pattern::CardNumber,
            bytes,
            start,
        )) is None by {
            lemma_card_number_end(bytes, start);
            if let Some(end) = card_number_end(bytes, start) {
                lemma_card_of_digits(bytes, start, end);
            }
        }
        law_clean_text_is_kept(text);
    }
}

/// What stands in the place of other things holds nothing of the kind itself.
pub proof fn lemma_literals_are_free()
    ensures
        free_of(Pattern::Bearer, encode_utf8(REDACTED@)),
        free_of(Pattern::Jwt, encode_utf8(REDACTED@)),
        free_of(Pattern::CardNumber, encode_utf8(REDACTED@)),
        free_of(Pattern::CardNumber, encode_utf8(TRUNCATED@)),
        free_of(Pattern::Email, encode_utf8(REDACTED@)),
        free_of(Pattern::Email, encode_utf8(TRUNCATED@)),
        free_of(Pattern::Bearer, encode_utf8(TRUNCATED@)),
        free_of(Pattern::Jwt, encode_utf8(TRUNCATED@)),
{
    lemma_mark();
    assert(mark().subrange(0, mark().len() as int) =~= mark());
    assert forall|start: int| 0 <= start < mark().len() implies (#[trigger] pattern_end(
        Pattern::Bearer,
        mark(),
        start,
    )) is None by {
        lemma_mark_is_clean(Pattern::Bearer, mark(), 0, start);
    }
    assert forall|start: int| 0 <= start < mark().len() implies (#[trigger] pattern_end(
        Pattern::Jwt,
        mark(),
        start,
    )) is None by {
        lemma_mark_is_clean(Pattern::Jwt, mark(), 0, start);
    }
    assert forall|start: int| 0 <= start < mark().len() implies (#[trigger] pattern_end(
        Pattern::CardNumber,
        mark(),
        start,
    )) is None by {
        lemma_mark_is_clean(Pattern::CardNumber, mark(), 0, start);
    }
    assert forall|start: int| 0 <= start < mark().len() implies (#[trigger] pattern_end(
        Pattern::Email,
        mark(),
        start,
    )) is None by {
        lemma_mark_is_clean(Pattern::Email, mark(), 0, start);
    }
    reveal_strlit("[truncated]");
    let bytes = encode_utf8(TRUNCATED@);
    is_ascii_chars_encode_utf8(TRUNCATED@);
    assert forall|i: int| 0 <= i < bytes.len() implies bytes[i] as char != 'J' && bytes[i] as char
        != '@' && !digit(bytes[i] as char) && !in_class(ByteClass::Blank, #[trigger] bytes[i]) by {
        assert(bytes[i] as char == TRUNCATED@[i]);
    }
    assert forall|start: int| 0 <= start < bytes.len() implies (#[trigger] pattern_end(
        Pattern::CardNumber,
        bytes,
        start,
    )) is None by {
        lemma_card_number_end(bytes, start);
    }
    assert forall|start: int| 0 <= start < bytes.len() implies (#[trigger] pattern_end(
        Pattern::Email,
        bytes,
        start,
    )) is None by {
        let at = run_end(bytes, start, ByteClass::Local);
        lemma_run(bytes, start, ByteClass::Local);
        if at < bytes.len() {
            assert(bytes[at] as char != '@');
        }
    }
    lemma_no_blank_no_bearer(bytes);
    assert forall|start: int| 0 <= start < bytes.len() implies (#[trigger] pattern_end(
        Pattern::Jwt,
        bytes,
        start,
    )) is None by {
        if start + 2 < bytes.len() {
            assert(bytes[start + 2] as char != 'J');
        }
    }
}

} // verus!
