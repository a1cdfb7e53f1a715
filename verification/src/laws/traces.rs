//! What a trace is that was read from a header, and where it is reported.
use crate::ascii::{hex_digit, lower, lower_hex_digit, lowercase};
use crate::capture::{error_fields, event_fields, ErrorFacts, ErrorOptions, EventOptions};
use crate::ids::{hex_id, only_zeros};
use crate::monitor::Config;
use crate::laws::ids::law_id_digits;
use crate::outside::{trimmed, trimmed_end, trimmed_start, white_space};
use crate::trace::{
    hex_field, split_at_all, trace_for, traceparent_ids, TraceContext,
};
use crate::value::Json;
use vstd::prelude::*;

verus! {

proof fn lemma_split_last(left: Seq<char>, separator: char, right: Seq<char>)
    requires
        !right.contains(separator),
    ensures
        split_at_all(left.push(separator) + right, separator) == split_at_all(
            left,
            separator,
        ).push(right),
    decreases right.len(),
{
    let text = left.push(separator) + right;
    if right.len() == 0 {
        assert(text.drop_last() =~= left);
        assert(text.last() == separator);
        assert(right =~= seq![]);
        assert(split_at_all(text, separator) =~= split_at_all(left, separator).push(right));
    } else {
        assert(right[right.len() - 1] != separator);
        assert(text.drop_last() =~= left.push(separator) + right.drop_last());
        assert(text.last() == right.last());
        assert(!right.drop_last().contains(separator)) by {
            assert forall|i: int| 0 <= i < right.len() - 1 implies #[trigger] right.drop_last()[i]
                != separator by {
                assert(right[i] != separator);
            }
        }
        lemma_split_last(left, separator, right.drop_last());
        assert(right.drop_last().push(right.last()) =~= right);
        assert(split_at_all(text, separator) =~= split_at_all(left, separator).push(right));
    }
}

proof fn lemma_split_none(text: Seq<char>, separator: char)
    requires
        !text.contains(separator),
    ensures
        split_at_all(text, separator) == seq![text],
    decreases text.len(),
{
    if text.len() > 0 {
        assert(text[text.len() - 1] != separator);
        assert(!text.drop_last().contains(separator)) by {
            assert forall|i: int| 0 <= i < text.len() - 1 implies #[trigger] text.drop_last()[i]
                != separator by {
                assert(text[i] != separator);
            }
        }
        lemma_split_none(text.drop_last(), separator);
        assert(text.drop_last().push(text.last()) =~= text);
        assert(split_at_all(text, separator) =~= seq![text]);
    }
}

proof fn lemma_trim_start(space: Seq<char>, text: Seq<char>)
    requires
        forall|i: int| 0 <= i < space.len() ==> white_space(#[trigger] space[i]),
        text.len() > 0,
        !white_space(text[0]),
    ensures
        trimmed_start(space + text) == text,
    decreases space.len(),
{
    if space.len() == 0 {
        assert(space + text =~= text);
    } else {
        assert(white_space(space[0]));
        assert((space + text).drop_first() =~= space.drop_first() + text);
        lemma_trim_start(space.drop_first(), text);
    }
}

proof fn lemma_trim_end(text: Seq<char>, space: Seq<char>)
    requires
        forall|i: int| 0 <= i < space.len() ==> white_space(#[trigger] space[i]),
        text.len() > 0,
        !white_space(text.last()),
    ensures
        trimmed_end(text + space) == text,
    decreases space.len(),
{
    if space.len() == 0 {
        assert(text + space =~= text);
    } else {
        assert(white_space(space[space.len() - 1]));
        assert((text + space).drop_last() =~= text + space.drop_last());
        lemma_trim_end(text, space.drop_last());
    }
}

/// The header `00-<trace id>-<span id>-<flags>`.
pub open spec fn traceparent(trace_id: Seq<char>, span_id: Seq<char>, flags: Seq<char>) -> Seq<
    char,
> {
    ("00"@ + trace_id.insert(0, '-') + span_id.insert(0, '-')) + flags.insert(0, '-')
}

/// The trace of a caller is read back from the header that the caller sent,
/// with white space around it or without.
pub proof fn law_traceparent_is_read_back(
    before: Seq<char>,
    trace_id: Seq<char>,
    span_id: Seq<char>,
    flags: Seq<char>,
    after: Seq<char>,
)
    requires
        hex_field(trace_id, 32) && !only_zeros(trace_id),
        hex_field(span_id, 16) && !only_zeros(span_id),
        hex_field(flags, 2),
        forall|i: int| 0 <= i < before.len() ==> white_space(#[trigger] before[i]),
        forall|i: int| 0 <= i < after.len() ==> white_space(#[trigger] after[i]),
    ensures
        traceparent_ids(before + traceparent(trace_id, span_id, flags) + after) == Some(
            (trace_id, span_id),
        ),
{
    reveal_strlit("00");
    let header = traceparent(trace_id, span_id, flags);
    let two = "00"@ + trace_id.insert(0, '-');
    let three = two + span_id.insert(0, '-');
    assert(header[0] == '0');
    assert(header.last() == flags[1]);
    assert(hex_digit(flags[1]));
    assert(before + header + after =~= before + (header + after));
    lemma_trim_start(before, header + after);
    lemma_trim_end(header, after);
    assert(!"00"@.contains('-'));
    assert forall|i: int| 0 <= i < trace_id.len() implies #[trigger] trace_id[i] != '-' by {
        assert(hex_digit(trace_id[i]));
    }
    assert forall|i: int| 0 <= i < span_id.len() implies #[trigger] span_id[i] != '-' by {
        assert(hex_digit(span_id[i]));
    }
    assert forall|i: int| 0 <= i < flags.len() implies #[trigger] flags[i] != '-' by {
        assert(hex_digit(flags[i]));
    }
    lemma_split_none("00"@, '-');
    assert("00"@.push('-') + trace_id =~= two);
    lemma_split_last("00"@, '-', trace_id);
    assert(two.push('-') + span_id =~= three);
    lemma_split_last(two, '-', span_id);
    assert(three.push('-') + flags =~= header);
    lemma_split_last(three, '-', flags);
    let parts = split_at_all(header, '-');
    assert(parts =~= seq!["00"@, trace_id, span_id, flags]);
}

/// A trace id has 32 lower-case hexadecimal digits, and that of the span that it
/// came from, if there is one, has 16. Neither is zero.
pub proof fn law_trace_ids(header: Option<Seq<char>>, trace: TraceContext)
    requires
        trace_for(header, trace),
    ensures
        hex_id(trace.trace_id@, 16) && !only_zeros(trace.trace_id@),
        trace.parent_span_id matches Some(parent) ==> hex_id(parent@, 8) && !only_zeros(parent@),
{
    if let Some(header) = header {
        if let Some((trace_id, span_id)) = traceparent_ids(header) {
            lemma_lower_hex(trace_id);
            lemma_lower_hex(span_id);
        }
    }
}

proof fn lemma_lower_hex(text: Seq<char>)
    requires
        forall|i: int| 0 <= i < text.len() ==> hex_digit(#[trigger] text[i]),
    ensures
        forall|i: int|
            0 <= i < lowercase(text).len() ==> lower_hex_digit(#[trigger] lowercase(text)[i]),
        only_zeros(lowercase(text)) ==> only_zeros(text),
{
    if only_zeros(lowercase(text)) {
        assert forall|i: int| 0 <= i < text.len() implies #[trigger] text[i] == '0' by {
            assert(lowercase(text)[i] == lower(text[i]));
        }
    }
    assert forall|i: int| 0 <= i < lowercase(text).len() implies lower_hex_digit(
        #[trigger] lowercase(text)[i],
    ) by {
        assert(hex_digit(text[i]));
        assert(lowercase(text)[i] == lower(text[i]));
    }
}

/// An event and an error that are reported with one trace carry one trace id.
pub proof fn law_trace_joins_reports(
    config: Config,
    trace: TraceContext,
    message: Seq<char>,
    event: EventOptions,
    event_id: Seq<char>,
    timestamp: Seq<char>,
    error: ErrorOptions,
    facts: ErrorFacts,
)
    requires
        event.trace == Some(trace),
        facts.trace_id == trace.trace_id@,
    ensures
        ({
            let fields = event_fields(config, message, event, event_id, timestamp);
            fields.contains_key("traceId"@) && fields["traceId"@] == Json::Text(trace.trace_id@)
        }),
        ({
            let fields = error_fields(config, error, facts);
            fields.contains_key("traceId"@) && fields["traceId"@] == Json::Text(trace.trace_id@)
        }),
{
    reveal_strlit("traceId");
    reveal_strlit("spanId");
    reveal_strlit("tags");
    reveal_strlit("error");
    reveal_strlit("operationId");
    reveal_strlit("method");
    reveal_strlit("path");
    reveal_strlit("statusCode");
    assert("traceId"@.len() == 7);
    assert("spanId"@.len() == 6);
    assert("tags"@.len() == 4);
    assert("error"@.len() == 5);
    assert("operationId"@.len() == 11);
    assert("method"@.len() == 6);
    assert("path"@.len() == 4);
    assert("statusCode"@.len() == 10);
}

/// `text` is `len` hexadecimal digits in either case.
pub open spec fn hexadecimal(text: Seq<char>, len: int) -> bool {
    text.len() == len && forall|i: int|
        0 <= i < len ==> '0' <= #[trigger] text[i] <= '9' || 'a' <= text[i] <= 'f' || 'A' <= text[i]
            <= 'F'
}

/// `text` is `other` with small letters for `A` to `F`.
pub open spec fn in_small_letters(text: Seq<char>, other: Seq<char>) -> bool {
    text.len() == other.len() && forall|i: int|
        0 <= i < text.len() ==> #[trigger] text[i] as int == if 'A' <= other[i] <= 'F' {
            other[i] as int + 32
        } else {
            other[i] as int
        }
}

/// `text` has a digit that is not zero.
pub open spec fn has_nonzero(text: Seq<char>) -> bool {
    exists|i: int| 0 <= i < text.len() && #[trigger] text[i] != '0'
}

/// `header` is `00-<trace id>-<span id>-<flags>`, with hexadecimal digits of the
/// right number, neither id zero, and white space around it or not.
pub open spec fn is_traceparent(
    header: Seq<char>,
    before: Seq<char>,
    trace_id: Seq<char>,
    span_id: Seq<char>,
    flags: Seq<char>,
    after: Seq<char>,
) -> bool {
    &&& header == before + ("00-"@ + trace_id + "-"@ + span_id + "-"@ + flags) + after
    &&& hexadecimal(trace_id, 32) && has_nonzero(trace_id)
    &&& hexadecimal(span_id, 16) && has_nonzero(span_id)
    &&& hexadecimal(flags, 2)
    &&& forall|i: int| 0 <= i < before.len() ==> white_space(#[trigger] before[i])
    &&& forall|i: int| 0 <= i < after.len() ==> white_space(#[trigger] after[i])
}

/// What is asked of the parts of a header: so many hexadecimal digits, and not
/// all of them zero.
pub proof fn law_hex_fields(text: Seq<char>, len: int)
    ensures
        hexadecimal(text, len) == hex_field(text, len),
        has_nonzero(text) == !only_zeros(text),
{
    if hexadecimal(text, len) {
        assert forall|i: int| 0 <= i < text.len() implies hex_digit(#[trigger] text[i]) by {
            assert('0' <= text[i] <= '9' || 'a' <= text[i] <= 'f' || 'A' <= text[i] <= 'F');
        }
    }
    if hex_field(text, len) {
        assert forall|i: int| 0 <= i < len implies '0' <= #[trigger] text[i] <= '9' || 'a'
            <= text[i] <= 'f' || 'A' <= text[i] <= 'F' by {
            assert(hex_digit(text[i]));
        }
    }
}

proof fn lemma_small_letters(text: Seq<char>, len: int)
    requires
        hexadecimal(text, len),
    ensures
        in_small_letters(lowercase(text), text),
{
    assert forall|i: int| 0 <= i < text.len() implies #[trigger] lowercase(text)[i] as int == if 'A'
        <= text[i] <= 'F' {
        text[i] as int + 32
    } else {
        text[i] as int
    } by {
        assert('0' <= text[i] <= '9' || 'a' <= text[i] <= 'f' || 'A' <= text[i] <= 'F');
        assert(lowercase(text)[i] == lower(text[i]));
    }
}

/// The trace of a caller is joined: whatever the ids and the flags of a valid
/// header are, the trace has the ids of the header, in small letters.
pub proof fn law_trace_is_joined(
    header: Seq<char>,
    before: Seq<char>,
    trace_id: Seq<char>,
    span_id: Seq<char>,
    flags: Seq<char>,
    after: Seq<char>,
    trace: TraceContext,
)
    requires
        is_traceparent(header, before, trace_id, span_id, flags, after),
        trace_for(Some(header), trace),
    ensures
        in_small_letters(trace.trace_id@, trace_id),
        trace.parent_span_id matches Some(parent) && in_small_letters(parent@, span_id),
{
    reveal_strlit("00-");
    reveal_strlit("00");
    reveal_strlit("-");
    law_hex_fields(trace_id, 32);
    law_hex_fields(span_id, 16);
    law_hex_fields(flags, 2);
    assert("00-"@ + trace_id + "-"@ + span_id + "-"@ + flags =~= traceparent(
        trace_id,
        span_id,
        flags,
    ));
    law_traceparent_is_read_back(before, trace_id, span_id, flags, after);
    lemma_small_letters(trace_id, 32);
    lemma_small_letters(span_id, 16);
}

/// The parts, with separators between them.
pub open spec fn joined(parts: Seq<Seq<char>>, separator: char) -> Seq<char>
    decreases parts.len(),
{
    if parts.len() == 0 {
        seq![]
    } else if parts.len() == 1 {
        parts[0]
    } else {
        joined(parts.drop_last(), separator).push(separator) + parts.last()
    }
}

proof fn lemma_joined(text: Seq<char>, separator: char)
    ensures
        split_at_all(text, separator).len() > 0,
        joined(split_at_all(text, separator), separator) == text,
    decreases text.len(),
{
    if text.len() > 0 {
        let rest = text.drop_last();
        lemma_joined(rest, separator);
        let parts = split_at_all(rest, separator);
        let all = split_at_all(text, separator);
        if text.last() == separator {
            assert(all.drop_last() =~= parts);
            assert(joined(all, separator) =~= text);
        } else {
            assert(all.drop_last() =~= parts.drop_last());
            assert(all.last() =~= parts.last().push(text.last()));
            assert(joined(all, separator) =~= joined(parts, separator).push(text.last()));
            assert(rest.push(text.last()) =~= text);
        }
    }
}

proof fn lemma_trimmed_start_parts(text: Seq<char>) -> (space: Seq<char>)
    ensures
        text == space + trimmed_start(text),
        forall|i: int| 0 <= i < space.len() ==> white_space(#[trigger] space[i]),
    decreases text.len(),
{
    if text.len() > 0 && white_space(text.first()) {
        let rest = lemma_trimmed_start_parts(text.drop_first());
        let space = seq![text.first()] + rest;
        assert(space + trimmed_start(text) =~= text) by {
            assert(seq![text.first()] + text.drop_first() =~= text);
            assert(space + trimmed_start(text) =~= seq![text.first()] + (rest + trimmed_start(
                text.drop_first(),
            )));
        }
        space
    } else {
        assert(seq![] + text =~= text);
        seq![]
    }
}

proof fn lemma_trimmed_end_parts(text: Seq<char>) -> (space: Seq<char>)
    ensures
        text == trimmed_end(text) + space,
        forall|i: int| 0 <= i < space.len() ==> white_space(#[trigger] space[i]),
    decreases text.len(),
{
    if text.len() > 0 && white_space(text.last()) {
        let rest = lemma_trimmed_end_parts(text.drop_last());
        let space = rest.push(text.last());
        assert(trimmed_end(text) + space =~= text) by {
            assert(text.drop_last().push(text.last()) =~= text);
            assert(trimmed_end(text) + space =~= (trimmed_end(text.drop_last()) + rest).push(
                text.last(),
            ));
        }
        space
    } else {
        assert(text + seq![] =~= text);
        seq![]
    }
}

/// A trace has a parent only if it was read from a valid header; any other
/// header, and none at all, starts a fresh trace without one.
pub proof fn law_only_valid_headers_are_joined(header: Option<Seq<char>>, trace: TraceContext)
    requires
        trace_for(header, trace),
        trace.parent_span_id is Some,
    ensures
        header is Some,
        exists|
            before: Seq<char>,
            trace_id: Seq<char>,
            span_id: Seq<char>,
            flags: Seq<char>,
            after: Seq<char>,
        |
            #[trigger] is_traceparent(header->Some_0, before, trace_id, span_id, flags, after),
{
    let header = header->Some_0;
    let core = trimmed(header);
    let parts = split_at_all(core, '-');
    let before = lemma_trimmed_start_parts(header);
    let after = lemma_trimmed_end_parts(trimmed_start(header));
    assert(header =~= before + core + after);
    lemma_joined(core, '-');
    let three = parts.drop_last();
    let two = three.drop_last();
    let one = two.drop_last();
    assert(joined(one, '-') == parts[0]);
    assert(joined(two, '-') == joined(one, '-').push('-') + parts[1]);
    assert(joined(three, '-') == joined(two, '-').push('-') + parts[2]);
    assert(core == joined(three, '-').push('-') + parts[3]);
    reveal_strlit("00-");
    reveal_strlit("00");
    reveal_strlit("-");
    assert(core =~= "00-"@ + parts[1] + "-"@ + parts[2] + "-"@ + parts[3]);
    law_hex_fields(parts[1], 32);
    law_hex_fields(parts[2], 16);
    law_hex_fields(parts[3], 2);
    assert(is_traceparent(header, before, parts[1], parts[2], parts[3], after));
}

/// Without a parent, the id of a trace is 32 digits of `0` to `9` and `a` to
/// `f`, not all of them zero.
pub proof fn law_fresh_trace(header: Option<Seq<char>>, trace: TraceContext)
    requires
        trace_for(header, trace),
        trace.parent_span_id is None,
    ensures
        trace.trace_id@.len() == 32,
        forall|i: int|
            0 <= i < 32 ==> '0' <= #[trigger] trace.trace_id@[i] <= '9' || 'a' <= trace.trace_id@[i]
                <= 'f',
        has_nonzero(trace.trace_id@),
{
    law_id_digits(trace.trace_id@, 16);
    law_hex_fields(trace.trace_id@, 32);
}

} // verus!
