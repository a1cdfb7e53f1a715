//! The shapes of credentials and personal data that show up in free text.
//!
//! A matcher looks at one position of a byte string and answers where a match
//! that starts there ends. What it answers is given by the `*_end` functions.
use crate::ascii::{alphanumeric, digit, is_alphanumeric, is_digit, lower, to_lower};
use vstd::prelude::*;
use vstd::utf8::{encode_utf8, is_ascii_chars_encode_utf8};

verus! {

/// The sets of bytes that the matchers read runs of.
#[derive(Clone, Copy, Debug)]
pub enum ByteClass {
    /// A space or a tab.
    Blank,
    /// What a bearer token is made of.
    Token,
    /// What a segment of a JWT is made of: the base64url alphabet.
    Segment,
    /// What stands before the `@` of an email address.
    Local,
    /// What a label of a host name is made of.
    Label,
}

/// Whether `byte` belongs to `class`.
pub open spec fn in_class(class: ByteClass, byte: u8) -> bool {
    let c = byte as char;
    match class {
        ByteClass::Blank => c == ' ' || c == '\t',
        ByteClass::Token => alphanumeric(c) || c == '_' || c == '.' || c == '~' || c == '+' || c
            == '/' || c == '-' || c == '=',
        ByteClass::Segment => alphanumeric(c) || c == '-' || c == '_',
        ByteClass::Local => alphanumeric(c) || c == '.' || c == '%' || c == '+' || c == '-' || c
            == '_',
        ByteClass::Label => alphanumeric(c) || c == '-',
    }
}

/// The end of the longest run of bytes of `class` that starts at `from`.
pub open spec fn run_end(bytes: Seq<u8>, from: int, class: ByteClass) -> int
    decreases bytes.len() - from,
{
    if 0 <= from < bytes.len() && in_class(class, bytes[from]) {
        run_end(bytes, from + 1, class)
    } else {
        from
    }
}

/// The byte at `index` is there and is `c`.
pub open spec fn byte_is(bytes: Seq<u8>, index: int, c: char) -> bool {
    0 <= index < bytes.len() && bytes[index] as char == c
}

/// An ASCII letter, a digit or an underscore.
pub open spec fn word_byte(byte: u8) -> bool {
    alphanumeric(byte as char) || byte as char == '_'
}

/// No word byte stands right before `start`.
pub open spec fn word_start(bytes: Seq<u8>, start: int) -> bool {
    start == 0 || !word_byte(bytes[start - 1])
}

/// `text` stands at `start`, in either case.
pub open spec fn word_at(bytes: Seq<u8>, start: int, text: Seq<char>) -> bool {
    &&& start + text.len() <= bytes.len()
    &&& forall|k: int| 0 <= k < text.len() ==> lower(bytes[start + k] as char) == #[trigger] text[k]
}

/// Where a bearer token ends that starts at `start`: the word `Bearer` in
/// either case, blanks, and the longest run of token bytes.
pub open spec fn bearer_end(bytes: Seq<u8>, start: int) -> Option<int> {
    let gap = start + 6;
    let token = run_end(bytes, gap, ByteClass::Blank);
    let end = run_end(bytes, token, ByteClass::Token);
    if word_start(bytes, start) && word_at(bytes, start, "bearer"@) && gap < token && token < end {
        Some(end)
    } else {
        None
    }
}

/// Where a dot and a non-empty segment after it end.
pub open spec fn dotted_segment_end(bytes: Seq<u8>, index: int) -> Option<int> {
    let end = run_end(bytes, index + 1, ByteClass::Segment);
    if byte_is(bytes, index, '.') && index + 1 < end {
        Some(end)
    } else {
        None
    }
}

/// Where a JWT ends that starts at `start`: three segments with dots between
/// them, of which the first begins with `eyJ`.
pub open spec fn jwt_end(bytes: Seq<u8>, start: int) -> Option<int> {
    if word_start(bytes, start) && byte_is(bytes, start, 'e') && byte_is(bytes, start + 1, 'y')
        && byte_is(bytes, start + 2, 'J') {
        match dotted_segment_end(bytes, run_end(bytes, start, ByteClass::Segment)) {
            Some(second) => dotted_segment_end(bytes, second),
            None => None,
        }
    } else {
        None
    }
}

/// The labels of the host name at `index`: how many there are, and where the
/// last of them ends. A dot that no label follows is not part of the name.
pub open spec fn host_labels(bytes: Seq<u8>, index: int) -> (nat, int)
    decreases bytes.len() - index,
{
    let end = run_end(bytes, index, ByteClass::Label);
    if end <= index {
        (0, index)
    } else if byte_is(bytes, end, '.') {
        let rest = host_labels(bytes, end + 1);
        if rest.0 == 0 {
            (1, end)
        } else {
            (rest.0 + 1, rest.1)
        }
    } else {
        (1, end)
    }
}

/// Where an email address ends that starts at `start`: a local part, an `@`
/// and a host name of at least two labels.
pub open spec fn email_end(bytes: Seq<u8>, start: int) -> Option<int> {
    let at = run_end(bytes, start, ByteClass::Local);
    let host = host_labels(bytes, at + 1);
    if word_start(bytes, start) && start < at && byte_is(bytes, at, '@') && host.0 >= 2 {
        Some(host.1)
    } else {
        None
    }
}

/// What the byte of a digit adds to a Luhn sum.
pub open spec fn luhn_value(byte: u8, doubled: bool) -> int {
    let value = byte as int - '0' as int;
    if !doubled {
        value
    } else if 2 * value > 9 {
        2 * value - 9
    } else {
        2 * value
    }
}

/// The Luhn sum of `digits`, read from the right; `doubled` tells whether the
/// rightmost digit is doubled.
pub open spec fn luhn_sum(digits: Seq<u8>, doubled: bool) -> int
    decreases digits.len(),
{
    if digits.len() == 0 {
        0
    } else {
        luhn_value(digits.last(), doubled) + luhn_sum(digits.drop_last(), !doubled)
    }
}

/// Whether `digits` carries a right Luhn check digit.
pub open spec fn luhn_valid(digits: Seq<u8>) -> bool {
    luhn_sum(digits, false) % 10 == 0
}

pub open spec fn all_digits(bytes: Seq<u8>) -> bool {
    forall|i: int| 0 <= i < bytes.len() ==> digit(#[trigger] bytes[i] as char)
}

/// A space or a hyphen.
pub open spec fn separator(byte: u8) -> bool {
    byte as char == ' ' || byte as char == '-'
}

/// The digits of `span`, in their order.
pub open spec fn digits_of(span: Seq<u8>) -> Seq<u8> {
    span.filter(|byte: u8| digit(byte as char))
}

/// A card number stands from `start` to `end`: 13 to 19 digits, with spaces and
/// hyphens between them or not, that pass the Luhn check. It starts at a word
/// start, and no word byte stands right behind it.
pub open spec fn card_span(bytes: Seq<u8>, start: int, end: int) -> bool {
    let digits = digits_of(bytes.subrange(start, end));
    &&& 0 <= start < end <= bytes.len()
    &&& digit(bytes[start] as char) && digit(bytes[end - 1] as char)
    &&& forall|i: int|
        start <= i < end ==> digit(#[trigger] bytes[i] as char) || separator(bytes[i])
    &&& 13 <= digits.len() <= 19
    &&& luhn_valid(digits)
    &&& word_start(bytes, start)
    &&& !(end < bytes.len() && word_byte(bytes[end]))
}

/// The greatest end, up to `limit`, of a card number that starts at `start`.
pub open spec fn longest_card(bytes: Seq<u8>, start: int, limit: int) -> Option<int>
    decreases limit - start,
{
    if limit <= start {
        None
    } else if card_span(bytes, start, limit) {
        Some(limit)
    } else {
        longest_card(bytes, start, limit - 1)
    }
}

/// Where the longest card number ends that starts at `start`.
pub open spec fn card_number_end(bytes: Seq<u8>, start: int) -> Option<int> {
    longest_card(bytes, start, bytes.len() as int)
}

/// `card_number_end` is the greatest end that a card number has, if there is
/// one.
pub proof fn lemma_card_number_end(bytes: Seq<u8>, start: int)
    ensures
        match card_number_end(bytes, start) {
            Some(end) => card_span(bytes, start, end) && forall|other: int| #[trigger]
                card_span(bytes, start, other) ==> other <= end,
            None => forall|other: int| !#[trigger] card_span(bytes, start, other),
        },
{
    lemma_longest_card(bytes, start, bytes.len() as int);
}

proof fn lemma_longest_card(bytes: Seq<u8>, start: int, limit: int)
    ensures
        match longest_card(bytes, start, limit) {
            Some(end) => card_span(bytes, start, end) && forall|other: int|
                other <= limit && #[trigger] card_span(bytes, start, other) ==> other <= end,
            None => forall|other: int|
                other <= limit ==> !#[trigger] card_span(bytes, start, other),
        },
    decreases limit - start,
{
    if limit > start && !card_span(bytes, start, limit) {
        lemma_longest_card(bytes, start, limit - 1);
    }
}

/// The digits of a span, one byte longer.
proof fn lemma_digits_push(bytes: Seq<u8>, start: int, index: int)
    requires
        0 <= start <= index < bytes.len(),
    ensures
        digits_of(bytes.subrange(start, index + 1)) == if digit(bytes[index] as char) {
            digits_of(bytes.subrange(start, index)).push(bytes[index])
        } else {
            digits_of(bytes.subrange(start, index))
        },
{
    reveal(Seq::filter);
    let longer = bytes.subrange(start, index + 1);
    assert(longer.drop_last() =~= bytes.subrange(start, index));
    assert(longer.last() == bytes[index]);
}

/// A longer span has no fewer digits.
proof fn lemma_digits_grow(bytes: Seq<u8>, start: int, index: int, other: int)
    requires
        0 <= start <= index <= other <= bytes.len(),
    ensures
        digits_of(bytes.subrange(start, index)).len() <= digits_of(
            bytes.subrange(start, other),
        ).len(),
    decreases other - index,
{
    if index < other {
        lemma_digits_push(bytes, start, other - 1);
        lemma_digits_grow(bytes, start, index, other - 1);
    }
}

/// Behind the last digit that can be read no card number ends.
proof fn lemma_no_longer_card(bytes: Seq<u8>, start: int, index: int)
    requires
        0 <= start <= index <= bytes.len(),
        ({
            ||| index == bytes.len()
            ||| !digit(bytes[index] as char) && !separator(bytes[index])
            ||| digits_of(bytes.subrange(start, index)).len() >= 19
        }),
    ensures
        forall|other: int| #[trigger] card_span(bytes, start, other) ==> other <= index,
{
    assert forall|other: int| #[trigger] card_span(bytes, start, other) implies other <= index by {
        if other > index {
            assert(digit(bytes[index] as char) || separator(bytes[index]));
            lemma_digits_grow(bytes, start, index, other - 1);
            lemma_digits_push(bytes, start, other - 1);
        }
    }
}

/// What free text is searched for.
#[derive(Clone, Copy, Debug)]
pub enum Pattern {
    Bearer,
    Jwt,
    CardNumber,
    Email,
}

/// Where a match of `pattern` ends that starts at `start`.
pub open spec fn pattern_end(pattern: Pattern, bytes: Seq<u8>, start: int) -> Option<int> {
    match pattern {
        Pattern::Bearer => bearer_end(bytes, start),
        Pattern::Jwt => jwt_end(bytes, start),
        Pattern::CardNumber => card_number_end(bytes, start),
        Pattern::Email => email_end(bytes, start),
    }
}

/// A run starts where it was asked for, holds bytes of the class alone, and
/// stops at the first byte that is none.
pub proof fn lemma_run(bytes: Seq<u8>, from: int, class: ByteClass)
    requires
        0 <= from <= bytes.len(),
    ensures
        from <= run_end(bytes, from, class) <= bytes.len(),
        forall|i: int|
            from <= i < run_end(bytes, from, class) ==> in_class(class, #[trigger] bytes[i]),
        run_end(bytes, from, class) < bytes.len() ==> !in_class(
            class,
            bytes[run_end(bytes, from, class)],
        ),
    decreases bytes.len() - from,
{
    if from < bytes.len() && in_class(class, bytes[from]) {
        lemma_run(bytes, from + 1, class);
    }
}

impl ByteClass {
    pub fn holds(self, byte: u8) -> (result: bool)
        ensures
            result == in_class(self, byte),
    {
        let c: char = byte as char;
        match self {
            ByteClass::Blank => c == ' ' || c == '\t',
            ByteClass::Token => is_alphanumeric(c) || c == '_' || c == '.' || c == '~' || c == '+'
                || c == '/' || c == '-' || c == '=',
            ByteClass::Segment => is_alphanumeric(c) || c == '-' || c == '_',
            ByteClass::Local => is_alphanumeric(c) || c == '.' || c == '%' || c == '+' || c == '-'
                || c == '_',
            ByteClass::Label => is_alphanumeric(c) || c == '-',
        }
    }
}

/// Walks over the longest run of bytes of `class` from `from` on.
pub fn skip_run(bytes: &[u8], from: usize, class: ByteClass) -> (end: usize)
    requires
        from <= bytes@.len(),
    ensures
        end == run_end(bytes@, from as int, class),
        from <= end <= bytes@.len(),
{
    let mut index: usize = from;
    while index < bytes.len() && class.holds(bytes[index])
        invariant
            from <= index <= bytes@.len(),
            run_end(bytes@, from as int, class) == run_end(bytes@, index as int, class),
        decreases bytes@.len() - index,
    {
        index += 1;
    }
    index
}

pub fn has_byte(bytes: &[u8], index: usize, c: char) -> (result: bool)
    ensures
        result == byte_is(bytes@, index as int, c),
{
    index < bytes.len() && bytes[index] as char == c
}

pub fn is_word_byte(byte: u8) -> (result: bool)
    ensures
        result == word_byte(byte),
{
    is_alphanumeric(byte as char) || byte as char == '_'
}

pub fn at_word_start(bytes: &[u8], start: usize) -> (result: bool)
    requires
        start <= bytes@.len(),
    ensures
        result == word_start(bytes@, start as int),
{
    start == 0 || !is_word_byte(bytes[start - 1])
}

/// Whether the ASCII `word`, written in lower case, stands at `start` in either
/// case.
pub fn has_word(bytes: &[u8], start: usize, word: &str) -> (result: bool)
    requires
        start <= bytes@.len(),
        word.is_ascii(),
    ensures
        result == word_at(bytes@, start as int, word@),
{
    let letters: &[u8] = word.as_bytes();
    proof {
        is_ascii_chars_encode_utf8(word@);
    }
    let length: usize = bytes.len();
    if length - start < letters.len() {
        return false;
    }
    let mut matched: usize = 0;
    while matched < letters.len()
        invariant
            matched <= letters@.len() == word@.len(),
            start + letters@.len() <= length == bytes@.len(),
            forall|k: int| 0 <= k < word@.len() ==> letters@[k] as char == #[trigger] word@[k],
            forall|k: int|
                0 <= k < matched ==> lower(bytes@[start + k] as char) == #[trigger] word@[k],
        decreases letters@.len() - matched,
    {
        if to_lower(bytes[start + matched] as char) != letters[matched] as char {
            assert(lower(bytes@[start + matched as int] as char) != word@[matched as int]);
            return false;
        }
        matched += 1;
    }
    true
}

/// `Authorization: Bearer <token>` copied into a log line.
pub fn match_bearer(bytes: &[u8], start: usize) -> (end: Option<usize>)
    requires
        start <= bytes@.len(),
    ensures
        match end {
            Some(end) => bearer_end(bytes@, start as int) == Some(end as int),
            None => bearer_end(bytes@, start as int) is None,
        },
{
    proof {
        reveal_strlit("bearer");
    }
    if !at_word_start(bytes, start) || !has_word(bytes, start, "bearer") {
        return None;
    }
    assert(start + 6 <= bytes.len());
    let gap: usize = start + 6;
    let token: usize = skip_run(bytes, gap, ByteClass::Blank);
    if token == gap {
        return None;
    }
    let end: usize = skip_run(bytes, token, ByteClass::Token);
    if end > token {
        Some(end)
    } else {
        None
    }
}

/// Walks over a dot and the non-empty segment behind it.
fn skip_dotted_segment(bytes: &[u8], index: usize) -> (end: Option<usize>)
    ensures
        match end {
            Some(end) => dotted_segment_end(bytes@, index as int) == Some(end as int) && end
                <= bytes@.len(),
            None => dotted_segment_end(bytes@, index as int) is None,
        },
{
    if !has_byte(bytes, index, '.') {
        return None;
    }
    assert(index + 1 <= bytes.len());
    let from: usize = index + 1;
    let end: usize = skip_run(bytes, from, ByteClass::Segment);
    if end > from {
        Some(end)
    } else {
        None
    }
}

/// A three-segment JWT, which always starts `eyJ` once base64url-encoded.
pub fn match_jwt(bytes: &[u8], start: usize) -> (end: Option<usize>)
    requires
        start <= bytes@.len(),
    ensures
        match end {
            Some(end) => jwt_end(bytes@, start as int) == Some(end as int),
            None => jwt_end(bytes@, start as int) is None,
        },
{
    let length: usize = bytes.len();
    if !at_word_start(bytes, start) || length - start < 3 || !has_byte(bytes, start, 'e')
        || !has_byte(bytes, start + 1, 'y') || !has_byte(bytes, start + 2, 'J') {
        return None;
    }
    let first: usize = skip_run(bytes, start, ByteClass::Segment);
    match skip_dotted_segment(bytes, first) {
        Some(second) => skip_dotted_segment(bytes, second),
        None => None,
    }
}

pub fn match_email(bytes: &[u8], start: usize) -> (end: Option<usize>)
    requires
        start <= bytes@.len(),
    ensures
        match end {
            Some(end) => email_end(bytes@, start as int) == Some(end as int),
            None => email_end(bytes@, start as int) is None,
        },
{
    if !at_word_start(bytes, start) {
        return None;
    }
    let at: usize = skip_run(bytes, start, ByteClass::Local);
    if at == start || !has_byte(bytes, at, '@') {
        return None;
    }
    let length: usize = bytes.len();
    let mut index: usize = at + 1;
    let mut labels: usize = 0;
    let mut end: usize = index;
    let ghost host = host_labels(bytes@, at + 1);
    loop
        invariant_except_break
            at + 1 <= index <= length,
            length == bytes@.len(),
            labels <= index,
            host == ({
                let rest = host_labels(bytes@, index as int);
                if rest.0 == 0 {
                    (labels as nat, end as int)
                } else {
                    ((labels + rest.0) as nat, rest.1)
                }
            }),
        ensures
            host == (labels as nat, end as int),
        decreases length - index,
    {
        let from: usize = index;
        index = skip_run(bytes, from, ByteClass::Label);
        if index == from {
            break;
        }
        labels += 1;
        end = index;
        if has_byte(bytes, index, '.') {
            index += 1;
        } else {
            break;
        }
    }
    // A bare host is not an address; `ada@example.com` needs at least two labels.
    if labels >= 2 {
        Some(end)
    } else {
        None
    }
}

/// What digits add to a Luhn sum.
proof fn lemma_luhn_bound(digits: Seq<u8>, doubled: bool)
    requires
        all_digits(digits),
    ensures
        0 <= luhn_sum(digits, doubled) <= 9 * digits.len(),
    decreases digits.len(),
{
    if digits.len() > 0 {
        assert(digit(digits[digits.len() - 1] as char));
        assert forall|i: int| 0 <= i < digits.drop_last().len() implies digit(
            #[trigger] digits.drop_last()[i] as char,
        ) by {
            assert(digit(digits[i] as char));
        }
        lemma_luhn_bound(digits.drop_last(), !doubled);
    }
}

/// A part of a Luhn sum is no more than the sum.
proof fn lemma_luhn_positive(digits: Seq<u8>, doubled: bool)
    requires
        forall|i: int| 0 <= i < digits.len() ==> #[trigger] digits[i] >= '0' as u8,
    ensures
        0 <= luhn_sum(digits, doubled),
    decreases digits.len(),
{
    if digits.len() > 0 {
        assert(digits[digits.len() - 1] >= '0' as u8);
        assert forall|i: int| 0 <= i < digits.drop_last().len() implies #[trigger] digits.drop_last()[i]
            >= '0' as u8 by {
            assert(digits[i] >= '0' as u8);
        }
        lemma_luhn_positive(digits.drop_last(), !doubled);
    }
}

/// Tells a card number from the order ids and timestamps that look like one.
pub fn passes_luhn(digits: &str) -> (result: bool)
    requires
        forall|i: int|
            0 <= i < encode_utf8(digits@).len() ==> #[trigger] encode_utf8(digits@)[i]
                >= '0' as u8,
        luhn_sum(encode_utf8(digits@), false) <= u32::MAX,
    ensures
        result == luhn_valid(encode_utf8(digits@)),
{
    let bytes: &[u8] = digits.as_bytes();
    let mut left: usize = bytes.len();
    let mut sum: u32 = 0;
    let mut double: bool = false;
    assert(bytes@.take(left as int) == bytes@);
    while left > 0
        invariant
            left <= bytes@.len(),
            forall|i: int| 0 <= i < bytes@.len() ==> #[trigger] bytes@[i] >= '0' as u8,
            luhn_sum(bytes@, false) <= u32::MAX,
            luhn_sum(bytes@, false) == sum + luhn_sum(bytes@.take(left as int), double),
        decreases left,
    {
        left -= 1;
        proof {
            assert(bytes@.take(left + 1).drop_last() == bytes@.take(left as int));
            lemma_luhn_positive(bytes@.take(left as int), !double);
        }
        let mut value: u32 = (bytes[left] - '0' as u8) as u32;
        if double {
            value *= 2;
            if value > 9 {
                value -= 9;
            }
        }
        sum += value;
        double = !double;
    }
    sum % 10 == 0
}

/// `best` is as far as `other`.
spec fn reaches(best: Option<usize>, other: int) -> bool {
    match best {
        Some(end) => other <= end,
        None => false,
    }
}

/// Whether the digits that were read pass the Luhn check.
fn digits_pass(digits: &String, Ghost(taken): Ghost<Seq<u8>>) -> (result: bool)
    requires
        all_digits(taken),
        taken.len() == digits@.len() <= 19,
        forall|i: int| 0 <= i < taken.len() ==> #[trigger] digits@[i] == taken[i] as char,
    ensures
        result == luhn_valid(taken),
{
    proof {
        assert forall|i: int| 0 <= i < digits@.len() implies '\0' <= #[trigger] digits@[i]
            <= '\u{7f}' by {
            assert(digit(taken[i] as char));
        }
        is_ascii_chars_encode_utf8(digits@);
        assert forall|i: int| 0 <= i < taken.len() implies encode_utf8(digits@)[i]
            == #[trigger] taken[i] by {
            assert(digits@[i] == taken[i] as char);
        }
        assert(encode_utf8(digits@) =~= taken);
        lemma_luhn_bound(taken, false);
    }
    passes_luhn(digits.as_str())
}

/// 13 to 19 digits, optionally grouped with spaces or hyphens, that also pass
/// the Luhn check: the longest that starts here.
pub fn match_card_number(bytes: &[u8], start: usize) -> (end: Option<usize>)
    ensures
        match end {
            Some(end) => card_span(bytes@, start as int, end as int) && forall|other: int|
                #[trigger] card_span(bytes@, start as int, other) ==> other <= end,
            None => forall|other: int| !#[trigger] card_span(bytes@, start as int, other),
        },
        match end {
            Some(end) => card_number_end(bytes@, start as int) == Some(end as int),
            None => card_number_end(bytes@, start as int) is None,
        },
{
    proof {
        lemma_card_number_end(bytes@, start as int);
    }
    if start >= bytes.len() || !is_digit(bytes[start] as char) || !at_word_start(bytes, start) {
        return None;
    }
    let length: usize = bytes.len();
    let mut index: usize = start;
    let mut best: Option<usize> = None;
    let mut digits: String = String::new();
    let mut count: usize = 0;
    let ghost mut taken: Seq<u8> = seq![];
    proof {
        reveal(Seq::filter);
        assert(digits_of(bytes@.subrange(start as int, start as int)) =~= taken);
    }
    while index < length
        invariant_except_break
            count < 19,
        invariant
            start <= index <= length,
            start < length == bytes@.len(),
            digit(bytes@[start as int] as char),
            word_start(bytes@, start as int),
            forall|i: int|
                start <= i < index ==> digit(#[trigger] bytes@[i] as char) || separator(bytes@[i]),
            taken == digits_of(bytes@.subrange(start as int, index as int)),
            count == taken.len() == digits@.len() <= 19,
            all_digits(taken),
            forall|i: int| 0 <= i < taken.len() ==> #[trigger] digits@[i] == taken[i] as char,
            best matches Some(end) ==> card_span(bytes@, start as int, end as int),
            forall|other: int|
                other <= index && #[trigger] card_span(bytes@, start as int, other) ==> reaches(
                    best,
                    other,
                ),
        ensures
            forall|other: int| #[trigger]
                card_span(bytes@, start as int, other) ==> other <= index,
        decreases length - index,
    {
        let c: char = bytes[index] as char;
        proof {
            lemma_digits_push(bytes@, start as int, index as int);
        }
        if is_digit(c) {
            digits.push(c);
            proof {
                taken = taken.push(bytes@[index as int]);
            }
            count += 1;
            index += 1;
            if count >= 13 && !(index < length && is_word_byte(bytes[index])) && digits_pass(
                &digits,
                Ghost(taken),
            ) {
                best = Some(index);
            }
            if count == 19 {
                proof {
                    lemma_no_longer_card(bytes@, start as int, index as int);
                }
                break;
            }
        } else if c == ' ' || c == '-' {
            index += 1;
        } else {
            proof {
                lemma_no_longer_card(bytes@, start as int, index as int);
            }
            break;
        }
    }
    best
}

impl Pattern {
    pub fn match_at(self, bytes: &[u8], start: usize) -> (end: Option<usize>)
        requires
            start <= bytes@.len(),
        ensures
            match end {
                Some(end) => pattern_end(self, bytes@, start as int) == Some(end as int),
                None => pattern_end(self, bytes@, start as int) is None,
            },
    {
        match self {
            Pattern::Bearer => match_bearer(bytes, start),
            Pattern::Jwt => match_jwt(bytes, start),
            Pattern::CardNumber => match_card_number(bytes, start),
            Pattern::Email => match_email(bytes, start),
        }
    }
}

/// The last label of a host name ends behind a label byte.
proof fn lemma_host_labels(bytes: Seq<u8>, index: int)
    requires
        0 <= index <= bytes.len(),
    ensures
        ({
            let (labels, end) = host_labels(bytes, index);
            labels > 0 ==> index < end <= bytes.len() && in_class(ByteClass::Label, bytes[end - 1])
        }),
    decreases bytes.len() - index,
{
    lemma_run(bytes, index, ByteClass::Label);
    let end = run_end(bytes, index, ByteClass::Label);
    if end > index && byte_is(bytes, end, '.') {
        lemma_host_labels(bytes, end + 1);
    }
}

/// A match is never empty, and it starts and ends on an ASCII byte.
pub proof fn lemma_match_bounds(pattern: Pattern, bytes: Seq<u8>, start: int)
    requires
        0 <= start <= bytes.len(),
    ensures
        pattern_end(pattern, bytes, start) matches Some(end) ==> {
            &&& start < end <= bytes.len()
            &&& bytes[start] < 0x80
            &&& bytes[end - 1] < 0x80
        },
{
    if let Some(end) = pattern_end(pattern, bytes, start) {
        match pattern {
            Pattern::Bearer => {
                reveal_strlit("bearer");
                assert(lower(bytes[start] as char) == "bearer"@[0]);
                let token = run_end(bytes, start + 6, ByteClass::Blank);
                lemma_run(bytes, start + 6, ByteClass::Blank);
                lemma_run(bytes, token, ByteClass::Token);
                assert(in_class(ByteClass::Token, bytes[end - 1]));
            },
            Pattern::Jwt => {
                let first = run_end(bytes, start, ByteClass::Segment);
                lemma_run(bytes, start, ByteClass::Segment);
                lemma_run(bytes, first + 1, ByteClass::Segment);
                let second = run_end(bytes, first + 1, ByteClass::Segment);
                lemma_run(bytes, second + 1, ByteClass::Segment);
                assert(in_class(ByteClass::Segment, bytes[end - 1]));
            },
            Pattern::CardNumber => {
                lemma_card_number_end(bytes, start);
            },
            Pattern::Email => {
                let at = run_end(bytes, start, ByteClass::Local);
                lemma_run(bytes, start, ByteClass::Local);
                assert(in_class(ByteClass::Local, bytes[start]));
                lemma_host_labels(bytes, at + 1);
            },
        }
    }
}

} // verus!
