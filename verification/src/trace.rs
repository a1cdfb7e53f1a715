//! W3C trace context: reading the `traceparent` header.
use crate::ascii::{hex_digit, is_hex_digit, lowercase, to_lower};
use crate::ids::{fresh_nonzero_id, only_zeros, random_nonzero_hex};
use crate::keys::texts;
use crate::outside::trimmed;
use crate::text::same_text;
use vstd::prelude::*;

verus! {

#[derive(Clone, Debug, PartialEq, Eq)]
pub struct TraceContext {
    pub trace_id: String,
    pub parent_span_id: Option<String>,
}

/// The parts of `text` between the separators.
pub open spec fn split_at_all(text: Seq<char>, separator: char) -> Seq<Seq<char>>
    decreases text.len(),
{
    if text.len() == 0 {
        seq![text]
    } else {
        let parts = split_at_all(text.drop_last(), separator);
        if text.last() == separator {
            parts.push(seq![])
        } else {
            parts.drop_last().push(parts.last().push(text.last()))
        }
    }
}

/// Exactly `len` hexadecimal digits.
pub open spec fn hex_field(text: Seq<char>, len: int) -> bool {
    text.len() == len && forall|i: int| 0 <= i < text.len() ==> hex_digit(#[trigger] text[i])
}

/// The trace id and the span id of a `traceparent` header, as they are written
/// there: version `00`, 32 digits, 16 digits and two digits of flags, with
/// hyphens between them. An id of zeros is none.
pub open spec fn traceparent_ids(header: Seq<char>) -> Option<(Seq<char>, Seq<char>)> {
    let parts = split_at_all(trimmed(header), '-');
    if parts.len() == 4 && parts[0] == "00"@ && hex_field(parts[1], 32) && hex_field(parts[2], 16)
        && hex_field(parts[3], 2) && !only_zeros(parts[1]) && !only_zeros(parts[2]) {
        Some((parts[1], parts[2]))
    } else {
        None
    }
}

/// Whether `trace` is the trace that a header, if there is one, asks for: the
/// ids of the header in lower case, or a fresh trace without a parent. The id of
/// a fresh trace is not zero.
pub open spec fn trace_for(header: Option<Seq<char>>, trace: TraceContext) -> bool {
    let ids = match header {
        Some(header) => traceparent_ids(header),
        None => None,
    };
    match (ids, trace.parent_span_id) {
        (Some((trace_id, span_id)), Some(parent)) => {
            &&& trace.trace_id@ == lowercase(trace_id)
            &&& parent@ == lowercase(span_id)
        },
        (None, None) => fresh_nonzero_id(trace.trace_id@, 16),
        _ => false,
    }
}

pub fn is_hex(value: &str, len: usize) -> (result: bool)
    ensures
        result == hex_field(value@, len as int),
{
    let mut count: usize = 0;
    for c in chars: value.chars()
        invariant
            chars.seq() == value@,
            count == chars.index() <= len,
            forall|i: int| 0 <= i < count ==> hex_digit(#[trigger] value@[i]),
    {
        if count == len {
            return false;
        }
        if !is_hex_digit(c) {
            assert(!hex_digit(value@[count as int]));
            return false;
        }
        count += 1;
    }
    count == len
}

pub fn all_zeros(value: &str) -> (result: bool)
    ensures
        result == only_zeros(value@),
{
    for c in chars: value.chars()
        invariant
            chars.seq() == value@,
            forall|i: int| 0 <= i < chars.index() ==> #[trigger] value@[i] == '0',
    {
        if c != '0' {
            assert(value@[chars.index() as int] != '0');
            return false;
        }
    }
    true
}

/// `lowercase` on a string.
fn to_lowercase(value: &str) -> (result: String)
    ensures
        result@ == lowercase(value@),
{
    let mut result: String = String::new();
    for c in chars: value.chars()
        invariant
            chars.seq() == value@,
            result@ == lowercase(value@.take(chars.index() as int)),
    {
        result.push(to_lower(c));
        assert(result@ =~= lowercase(value@.take(chars.index() + 1)));
    }
    assert(value@.take(value@.len() as int) == value@);
    result
}

/// The parts of `value` between the separators.
fn split(value: &str, separator: char) -> (parts: Vec<String>)
    ensures
        texts(parts@) == split_at_all(value@, separator),
{
    let mut parts: Vec<String> = Vec::new();
    let mut part: String = String::new();
    assert(value@.take(0) == part@);
    assert(texts(parts@).push(part@) =~= seq![part@]);
    for c in chars: value.chars()
        invariant
            chars.seq() == value@,
            split_at_all(value@.take(chars.index() as int), separator) == texts(
                parts@,
            ).push(part@),
    {
        let ghost read = value@.take(chars.index() + 1);
        let ghost done = texts(parts@);
        assert(read.drop_last() == value@.take(chars.index() as int));
        if c == separator {
            let ghost ended = part;
            parts.push(part);
            part = String::new();
            assert(texts(parts@) =~= done.push(ended@));
        } else {
            assert(done.push(part@).drop_last() =~= done);
            part.push(c);
        }
    }
    let ghost done = texts(parts@);
    let ghost last = part;
    parts.push(part);
    proof {
        assert(value@.take(value@.len() as int) == value@);
        assert(texts(parts@) =~= done.push(last@));
    }
    parts
}

/// Read a W3C traceparent header or start a fresh trace.
pub fn trace_from_header(traceparent: Option<&str>) -> (trace: TraceContext)
    ensures
        trace_for(
            match traceparent {
                Some(header) => Some(header@),
                None => None,
            },
            trace,
        ),
{
    if let Some(header) = traceparent {
        let parts: Vec<String> = split(header.trim(), '-');
        let ghost fields = texts(parts@);
        assert(fields == split_at_all(trimmed(header@), '-'));
        if parts.len() == 4 {
            assert(forall|i: int| 0 <= i < 4 ==> fields[i] == #[trigger] parts@[i]@);
            if same_text(parts[0].as_str(), "00") && is_hex(parts[1].as_str(), 32) && is_hex(
                parts[2].as_str(),
                16,
            ) && is_hex(parts[3].as_str(), 2) && !all_zeros(parts[1].as_str()) && !all_zeros(
                parts[2].as_str(),
            ) {
                return TraceContext {
                    trace_id: to_lowercase(parts[1].as_str()),
                    parent_span_id: Some(to_lowercase(parts[2].as_str())),
                };
            }
        }
    }
    TraceContext { trace_id: random_nonzero_hex(16), parent_span_id: None }
}

} // verus!
